//! The sound entity: four independently sized sequences and a speed.
use vstd::prelude::*;
use vstd::string::*;

use crate::error::SoundError;
use crate::notes::{notes_as_int, notes_of_text, parse_notes, Note};
use crate::symbols::{
    effects_of_text, parse_effects, parse_tones, parse_volumes, tones_of_text, volumes_of_text,
    Effect, Tone, Volume, EFFECT_FADEOUT, MAX_VOLUME,
};
use crate::text::{decimal, push_char, push_decimal};

verus! {

/// The playback speed. Any `u32` is accepted, `0` included, on purpose:
/// what a speed means is up to the player, so neither the setters nor the
/// stored form narrow it.
pub type Speed = u32;

/// The speed of a new or cleared sound.
pub const INITIAL_SPEED: Speed = 30;

/// The directory of the resource archive that holds sounds.
pub const RESOURCE_ARCHIVE_DIRNAME: &'static str = "pyxel_resource/";

/// A sound. The sequences may differ in length.
#[derive(Clone, Debug)]
pub struct Sound {
    pub notes: Vec<Note>,
    pub tones: Vec<Tone>,
    pub volumes: Vec<Volume>,
    pub effects: Vec<Effect>,
    pub speed: Speed,
}

/// A rest, or a pitch in the five octaves.
pub open spec fn is_valid_note(n: Note) -> bool {
    n == -1 || (0 <= n && n <= 59)
}

/// `index` in the key of an archive entry: two digits at least.
pub open spec fn padded_decimal(n: nat) -> Seq<char> {
    if n < 10 {
        seq!['0'] + decimal(n)
    } else {
        decimal(n)
    }
}

impl Sound {
    /// Every element lies in its domain: notes are rests or pitches in the
    /// five octaves, volumes at most `7`, effects one of the four codes.
    pub open spec fn is_valid(&self) -> bool {
        &&& forall|i: int| 0 <= i < self.notes@.len() ==> is_valid_note(#[trigger] self.notes@[i])
        &&& forall|i: int|
            0 <= i < self.volumes@.len() ==> #[trigger] self.volumes@[i] <= MAX_VOLUME
        &&& forall|i: int|
            0 <= i < self.effects@.len() ==> #[trigger] self.effects@[i] <= EFFECT_FADEOUT
    }

    pub open spec fn is_modified_spec(&self) -> bool {
        self.notes@.len() > 0 || self.tones@.len() > 0 || self.volumes@.len() > 0
            || self.effects@.len() > 0
    }

    /// All four sequences empty and the speed at its initial value.
    pub open spec fn is_cleared(&self) -> bool {
        &&& self.notes@.len() == 0
        &&& self.tones@.len() == 0
        &&& self.volumes@.len() == 0
        &&& self.effects@.len() == 0
        &&& self.speed == INITIAL_SPEED
    }

    /// The same sequences and speed.
    pub open spec fn same_content(&self, other: &Sound) -> bool {
        &&& self.notes@ == other.notes@
        &&& self.tones@ == other.tones@
        &&& self.volumes@ == other.volumes@
        &&& self.effects@ == other.effects@
        &&& self.speed == other.speed
    }

    pub fn new() -> (r: Sound)
        ensures
            r.is_cleared(),
    {
        Sound {
            notes: Vec::new(),
            tones: Vec::new(),
            volumes: Vec::new(),
            effects: Vec::new(),
            speed: INITIAL_SPEED,
        }
    }

    /// Replaces the notes with those that `text` spells; on an error the
    /// sound is left as it was.
    pub fn set_notes(&mut self, text: &str) -> (r: Result<(), SoundError>)
        ensures
            match notes_of_text(text@) {
                Ok(v) => r is Ok && notes_as_int(final(self).notes@) == v && final(self).tones@
                    == old(self).tones@ && final(self).volumes@ == old(self).volumes@ && final(self).effects@ == old(self).effects@ && final(self).speed == old(self).speed,
                Err(e) => r == Err::<(), SoundError>(e) && *final(self) == *old(self),
            },
    {
        match parse_notes(text) {
            Ok(v) => {
                self.notes = v;
                Ok(())
            },
            Err(e) => Err(e),
        }
    }

    /// Replaces the tones with those that `text` spells; on an error the
    /// sound is left as it was.
    pub fn set_tones(&mut self, text: &str) -> (r: Result<(), SoundError>)
        ensures
            match tones_of_text(text@) {
                Ok(v) => r is Ok && final(self).tones@ == v && final(self).notes@ == old(self).notes@ && final(self).volumes@ == old(self).volumes@ && final(self).effects@
                    == old(self).effects@ && final(self).speed == old(self).speed,
                Err(e) => r == Err::<(), SoundError>(e) && *final(self) == *old(self),
            },
    {
        match parse_tones(text) {
            Ok(v) => {
                self.tones = v;
                Ok(())
            },
            Err(e) => Err(e),
        }
    }

    /// Replaces the volumes with those that `text` spells; on an error the
    /// sound is left as it was.
    pub fn set_volumes(&mut self, text: &str) -> (r: Result<(), SoundError>)
        ensures
            match volumes_of_text(text@) {
                Ok(v) => r is Ok && final(self).volumes@ == v && final(self).notes@ == old(self).notes@ && final(self).tones@ == old(self).tones@ && final(self).effects@
                    == old(self).effects@ && final(self).speed == old(self).speed,
                Err(e) => r == Err::<(), SoundError>(e) && *final(self) == *old(self),
            },
    {
        match parse_volumes(text) {
            Ok(v) => {
                self.volumes = v;
                Ok(())
            },
            Err(e) => Err(e),
        }
    }

    /// Replaces the effects with those that `text` spells; on an error the
    /// sound is left as it was.
    pub fn set_effects(&mut self, text: &str) -> (r: Result<(), SoundError>)
        ensures
            match effects_of_text(text@) {
                Ok(v) => r is Ok && final(self).effects@ == v && final(self).notes@ == old(self).notes@ && final(self).tones@ == old(self).tones@ && final(self).volumes@
                    == old(self).volumes@ && final(self).speed == old(self).speed,
                Err(e) => r == Err::<(), SoundError>(e) && *final(self) == *old(self),
            },
    {
        match parse_effects(text) {
            Ok(v) => {
                self.effects = v;
                Ok(())
            },
            Err(e) => Err(e),
        }
    }

    /// Sets all four sequences and the speed. The texts are read in the
    /// order notes, tones, volumes, effects; the first that fails gives the
    /// error, and then nothing changes. `speed` is stored as given, `0`
    /// included.
    pub fn set(
        &mut self,
        note_str: &str,
        tone_str: &str,
        volume_str: &str,
        effect_str: &str,
        speed: Speed,
    ) -> (r: Result<(), SoundError>)
        ensures
            match (
                notes_of_text(note_str@),
                tones_of_text(tone_str@),
                volumes_of_text(volume_str@),
                effects_of_text(effect_str@),
            ) {
                (Ok(n), Ok(t), Ok(v), Ok(e)) => r is Ok && notes_as_int(final(self).notes@) == n
                    && final(self).tones@ == t && final(self).volumes@ == v && final(self).effects@
                    == e && final(self).speed == speed,
                (Err(x), _, _, _) => r == Err::<(), SoundError>(x) && *final(self) == *old(self),
                (Ok(_), Err(x), _, _) => r == Err::<(), SoundError>(x) && *final(self) == *old(self),
                (Ok(_), Ok(_), Err(x), _) => r == Err::<(), SoundError>(x) && *final(self)
                    == *old(self),
                (Ok(_), Ok(_), Ok(_), Err(x)) => r == Err::<(), SoundError>(x) && *final(self)
                    == *old(self),
            },
    {
        let notes = match parse_notes(note_str) {
            Ok(v) => v,
            Err(e) => {
                return Err(e);
            },
        };
        let tones = match parse_tones(tone_str) {
            Ok(v) => v,
            Err(e) => {
                return Err(e);
            },
        };
        let volumes = match parse_volumes(volume_str) {
            Ok(v) => v,
            Err(e) => {
                return Err(e);
            },
        };
        let effects = match parse_effects(effect_str) {
            Ok(v) => v,
            Err(e) => {
                return Err(e);
            },
        };
        self.notes = notes;
        self.tones = tones;
        self.volumes = volumes;
        self.effects = effects;
        self.speed = speed;
        Ok(())
    }

    /// The key of the archive entry for sound `item_no`.
    pub fn resource_name(item_no: u32) -> (r: String)
        ensures
            r@ == RESOURCE_ARCHIVE_DIRNAME@ + "sound"@ + padded_decimal(item_no as nat),
    {
        let mut r = String::from_str(RESOURCE_ARCHIVE_DIRNAME);
        r.append("sound");
        let ghost head = r@;
        if item_no < 10 {
            push_char(&mut r, '0');
        }
        push_decimal(&mut r, item_no);
        proof {
            assert(r@ =~= head + padded_decimal(item_no as nat));
        }
        r
    }

    /// True when any of the four sequences holds something; the speed does
    /// not count.
    pub fn is_modified(&self) -> (r: bool)
        ensures
            r == self.is_modified_spec(),
    {
        self.notes.len() > 0 || self.tones.len() > 0 || self.volumes.len() > 0
            || self.effects.len() > 0
    }

    /// Empties the four sequences and restores the initial speed.
    pub fn clear(&mut self)
        ensures
            final(self).is_cleared(),
    {
        self.notes.clear();
        self.tones.clear();
        self.volumes.clear();
        self.effects.clear();
        self.speed = INITIAL_SPEED;
    }

    pub fn get_speed(&self) -> (r: Speed)
        ensures
            r == self.speed,
    {
        self.speed
    }

    /// Sets the speed alone, to any value, `0` included; the sequences stay.
    pub fn set_speed(&mut self, speed: Speed)
        ensures
            final(self).speed == speed,
            final(self).notes@ == old(self).notes@,
            final(self).tones@ == old(self).tones@,
            final(self).volumes@ == old(self).volumes@,
            final(self).effects@ == old(self).effects@,
    {
        self.speed = speed;
    }
}

} // verus!
