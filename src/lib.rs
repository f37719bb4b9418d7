//! The data model and text codec of a sound: four note, tone, volume and
//! effect sequences plus a playback speed.
pub mod access;
pub mod codec;
pub mod error;
pub mod laws;
pub mod notes;
pub mod sound;
pub mod symbols;
pub mod text;

pub use error::SoundError;
pub use notes::{parse_notes, Note, REST};
pub use sound::{Sound, Speed, INITIAL_SPEED, RESOURCE_ARCHIVE_DIRNAME};
pub use symbols::{
    parse_effects, parse_tones, parse_volumes, Effect, Tone, Volume, EFFECT_FADEOUT, EFFECT_NONE,
    EFFECT_SLIDE, EFFECT_VIBRATO, MAX_VOLUME,
};
