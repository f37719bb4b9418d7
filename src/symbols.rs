//! The one-character decoders for tones, volumes and effects.
use vstd::prelude::*;

use crate::error::SoundError;
use crate::text::{normalize, normalized_chars};

verus! {

#[derive(Clone, Copy, Debug, PartialEq, Eq, Structural)]
pub enum Tone {
    Triangle,
    Square,
    Pulse,
    Noise,
    Sine,
    Saw,
}

pub type Volume = u8;

pub type Effect = u8;

pub const EFFECT_NONE: Effect = 0;

pub const EFFECT_SLIDE: Effect = 1;

pub const EFFECT_VIBRATO: Effect = 2;

pub const EFFECT_FADEOUT: Effect = 3;

pub const MAX_VOLUME: Volume = 7;

/// The ordinal of a tone, `Triangle` being `0` and `Saw` being `5`.
pub open spec fn tone_ordinal_spec(t: Tone) -> u8 {
    match t {
        Tone::Triangle => 0,
        Tone::Square => 1,
        Tone::Pulse => 2,
        Tone::Noise => 3,
        Tone::Sine => 4,
        Tone::Saw => 5,
    }
}

/// The tone of ordinal `k` (`k <= 5`).
pub open spec fn tone_of_ordinal_spec(k: u8) -> Tone {
    if k == 0 {
        Tone::Triangle
    } else if k == 1 {
        Tone::Square
    } else if k == 2 {
        Tone::Pulse
    } else if k == 3 {
        Tone::Noise
    } else if k == 4 {
        Tone::Sine
    } else {
        Tone::Saw
    }
}

pub fn tone_ordinal(t: Tone) -> (r: u8)
    ensures
        r == tone_ordinal_spec(t),
        r <= 5,
        tone_of_ordinal_spec(r) == t,
{
    match t {
        Tone::Triangle => 0,
        Tone::Square => 1,
        Tone::Pulse => 2,
        Tone::Noise => 3,
        Tone::Sine => 4,
        Tone::Saw => 5,
    }
}

pub fn tone_of_ordinal(k: u8) -> (r: Tone)
    requires
        k <= 5,
    ensures
        r == tone_of_ordinal_spec(k),
        tone_ordinal_spec(r) == k,
{
    if k == 0 {
        Tone::Triangle
    } else if k == 1 {
        Tone::Square
    } else if k == 2 {
        Tone::Pulse
    } else if k == 3 {
        Tone::Noise
    } else if k == 4 {
        Tone::Sine
    } else {
        Tone::Saw
    }
}

/// Which of the one-character alphabets a text is read in.
#[derive(Clone, Copy, Debug, PartialEq, Eq, Structural)]
pub enum Alphabet {
    /// `t s p n i w`, read as tone ordinals.
    Tones,
    /// `0` to `7`.
    Volumes,
    /// `n s v f`, read as effect codes.
    Effects,
}

/// The code that `c` stands for in alphabet `a`, if any.
pub open spec fn symbol_code(a: Alphabet, c: char) -> Option<u8> {
    match a {
        Alphabet::Tones => if c == 't' {
            Some(0u8)
        } else if c == 's' {
            Some(1u8)
        } else if c == 'p' {
            Some(2u8)
        } else if c == 'n' {
            Some(3u8)
        } else if c == 'i' {
            Some(4u8)
        } else if c == 'w' {
            Some(5u8)
        } else {
            None
        },
        Alphabet::Volumes => if '0' <= c && c <= '7' {
            Some((c as u32 - '0' as u32) as u8)
        } else {
            None
        },
        Alphabet::Effects => if c == 'n' {
            Some(EFFECT_NONE)
        } else if c == 's' {
            Some(EFFECT_SLIDE)
        } else if c == 'v' {
            Some(EFFECT_VIBRATO)
        } else if c == 'f' {
            Some(EFFECT_FADEOUT)
        } else {
            None
        },
    }
}

/// The error for a character outside alphabet `a`.
pub open spec fn symbol_error(a: Alphabet, c: char) -> SoundError {
    match a {
        Alphabet::Tones => SoundError::InvalidTone(c),
        Alphabet::Volumes => SoundError::InvalidVolume(c),
        Alphabet::Effects => SoundError::InvalidEffect(c),
    }
}

/// The codes of normalized text `s` in alphabet `a`, or the error for its
/// first character outside it.
pub open spec fn decode_symbols_spec(a: Alphabet, s: Seq<char>) -> Result<Seq<u8>, SoundError>
    decreases s.len(),
{
    if s.len() == 0 {
        Ok(Seq::empty())
    } else {
        match decode_symbols_spec(a, s.drop_last()) {
            Err(e) => Err(e),
            Ok(v) => match symbol_code(a, s.last()) {
                Some(k) => Ok(v.push(k)),
                None => Err(symbol_error(a, s.last())),
            },
        }
    }
}

/// What the text of a `set_tones` call yields.
pub open spec fn tones_of_text(text: Seq<char>) -> Result<Seq<Tone>, SoundError> {
    match decode_symbols_spec(Alphabet::Tones, normalize(text)) {
        Ok(v) => Ok(v.map_values(|k: u8| tone_of_ordinal_spec(k))),
        Err(e) => Err(e),
    }
}

/// What the text of a `set_volumes` call yields.
pub open spec fn volumes_of_text(text: Seq<char>) -> Result<Seq<Volume>, SoundError> {
    decode_symbols_spec(Alphabet::Volumes, normalize(text))
}

/// What the text of a `set_effects` call yields.
pub open spec fn effects_of_text(text: Seq<char>) -> Result<Seq<Effect>, SoundError> {
    decode_symbols_spec(Alphabet::Effects, normalize(text))
}

pub proof fn lemma_symbol_bounds(a: Alphabet, s: Seq<char>)
    ensures
        decode_symbols_spec(a, s) matches Ok(v) ==> v.len() == s.len() && forall|i: int|
            0 <= i < v.len() ==> match a {
                Alphabet::Tones => #[trigger] v[i] <= 5,
                Alphabet::Volumes => v[i] <= MAX_VOLUME,
                Alphabet::Effects => v[i] <= EFFECT_FADEOUT,
            },
    decreases s.len(),
{
    if s.len() > 0 {
        lemma_symbol_bounds(a, s.drop_last());
    }
}

fn symbol(a: Alphabet, c: char) -> (r: Option<u8>)
    ensures
        r == symbol_code(a, c),
{
    match a {
        Alphabet::Tones => match c {
            't' => Some(0),
            's' => Some(1),
            'p' => Some(2),
            'n' => Some(3),
            'i' => Some(4),
            'w' => Some(5),
            _ => None,
        },
        Alphabet::Volumes => if '0' <= c && c <= '7' {
            Some((c as u32 - '0' as u32) as u8)
        } else {
            None
        },
        Alphabet::Effects => match c {
            'n' => Some(EFFECT_NONE),
            's' => Some(EFFECT_SLIDE),
            'v' => Some(EFFECT_VIBRATO),
            'f' => Some(EFFECT_FADEOUT),
            _ => None,
        },
    }
}

/// Reads `text` in alphabet `a`, one code per character, white space and
/// case ignored.
pub fn decode_symbols(a: Alphabet, text: &str) -> (r: Result<Vec<u8>, SoundError>)
    ensures
        match decode_symbols_spec(a, normalize(text@)) {
            Ok(v) => r matches Ok(w) && w@ == v,
            Err(e) => r == Err::<Vec<u8>, SoundError>(e),
        },
{
    let s = normalized_chars(text);
    let mut out: Vec<u8> = Vec::new();
    let mut i: usize = 0;
    while i < s.len()
        invariant
            s@ == normalize(text@),
            i <= s@.len(),
            decode_symbols_spec(a, s@.subrange(0, i as int)) == Ok::<Seq<u8>, SoundError>(out@),
        decreases s@.len() - i,
    {
        let c = s[i];
        proof {
            assert(s@.subrange(0, i + 1).drop_last() =~= s@.subrange(0, i as int));
        }
        match symbol(a, c) {
            Some(k) => out.push(k),
            None => {
                proof {
                    lemma_error_stays(a, s@, i + 1);
                }
                return Err(match a {
                    Alphabet::Tones => SoundError::InvalidTone(c),
                    Alphabet::Volumes => SoundError::InvalidVolume(c),
                    Alphabet::Effects => SoundError::InvalidEffect(c),
                });
            },
        }
        i = i + 1;
    }
    proof {
        assert(s@.subrange(0, i as int) =~= s@);
    }
    Ok(out)
}

/// An error in a prefix is the error of the whole text.
proof fn lemma_error_stays(a: Alphabet, s: Seq<char>, i: int)
    requires
        0 <= i <= s.len(),
        decode_symbols_spec(a, s.subrange(0, i)) is Err,
    ensures
        decode_symbols_spec(a, s) == decode_symbols_spec(a, s.subrange(0, i)),
    decreases s.len() - i,
{
    if i < s.len() {
        assert(s.subrange(0, i + 1).drop_last() =~= s.subrange(0, i));
        lemma_error_stays(a, s, i + 1);
    } else {
        assert(s.subrange(0, i) =~= s);
    }
}

/// Parses tone text: `t s p n i w` for triangle, square, pulse, noise, sine
/// and saw.
pub fn parse_tones(text: &str) -> (r: Result<Vec<Tone>, SoundError>)
    ensures
        match tones_of_text(text@) {
            Ok(v) => r matches Ok(w) && w@ == v,
            Err(e) => r == Err::<Vec<Tone>, SoundError>(e),
        },
{
    let codes = match decode_symbols(Alphabet::Tones, text) {
        Ok(c) => c,
        Err(e) => {
            return Err(e);
        },
    };
    proof {
        lemma_symbol_bounds(Alphabet::Tones, normalize(text@));
    }
    let mut out: Vec<Tone> = Vec::new();
    let mut i: usize = 0;
    while i < codes.len()
        invariant
            i <= codes@.len(),
            forall|j: int| 0 <= j < codes@.len() ==> #[trigger] codes@[j] <= 5,
            out@ =~= codes@.subrange(0, i as int).map_values(|k: u8| tone_of_ordinal_spec(k)),
        decreases codes@.len() - i,
    {
        out.push(tone_of_ordinal(codes[i]));
        i = i + 1;
    }
    proof {
        assert(codes@.subrange(0, i as int) =~= codes@);
    }
    Ok(out)
}

/// Parses volume text: digits `0` to `7`.
pub fn parse_volumes(text: &str) -> (r: Result<Vec<Volume>, SoundError>)
    ensures
        match volumes_of_text(text@) {
            Ok(v) => r matches Ok(w) && w@ == v,
            Err(e) => r == Err::<Vec<Volume>, SoundError>(e),
        },
{
    decode_symbols(Alphabet::Volumes, text)
}

/// Parses effect text: `n s v f` for none, slide, vibrato and fade-out.
pub fn parse_effects(text: &str) -> (r: Result<Vec<Effect>, SoundError>)
    ensures
        match effects_of_text(text@) {
            Ok(v) => r matches Ok(w) && w@ == v,
            Err(e) => r == Err::<Vec<Effect>, SoundError>(e),
        },
{
    decode_symbols(Alphabet::Effects, text)
}

} // verus!
