//! The ways in which authoring text, stored data or an accessor call can fail.
use vstd::prelude::*;

verus! {

#[derive(Clone, Copy, Debug, PartialEq, Eq, Structural)]
pub enum SoundError {
    /// A character that does not continue a note token (`'\0'` when the text
    /// ends inside a token).
    InvalidNote(char),
    InvalidTone(char),
    InvalidVolume(char),
    InvalidEffect(char),
    /// Stored data with a bad structure or a value out of its range.
    CorruptData,
    /// A stored number that does not parse.
    InvalidFormat,
    /// An accessor index outside the sequence.
    IndexOutOfRange,
}

} // verus!
