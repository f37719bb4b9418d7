//! Bounds-checked access to a sound's sequences: length, get and set by
//! index, replacement by a list and export as a list. Tones go in and out as
//! their ordinals.
use vstd::prelude::*;

use crate::error::SoundError;
use crate::notes::Note;
use crate::sound::{is_valid_note, Sound};
use crate::symbols::{
    tone_of_ordinal, tone_of_ordinal_spec, tone_ordinal, tone_ordinal_spec, Effect, Volume,
    EFFECT_FADEOUT, MAX_VOLUME,
};

verus! {

/// `index` as a position in a sequence of `len` elements, if it is one.
pub open spec fn position(index: isize, len: nat) -> Option<nat> {
    if 0 <= index && index < len {
        Some(index as nat)
    } else {
        None
    }
}

fn checked_position(index: isize, len: usize) -> (r: Option<usize>)
    ensures
        match position(index, len as nat) {
            Some(p) => r == Some(p as usize),
            None => r is None,
        },
{
    if 0 <= index && (index as usize) < len {
        Some(index as usize)
    } else {
        None
    }
}

impl Sound {
    /// The same tones, volumes, effects and speed.
    pub open spec fn same_but_notes(&self, o: &Sound) -> bool {
        self.tones@ == o.tones@ && self.volumes@ == o.volumes@ && self.effects@ == o.effects@
            && self.speed == o.speed
    }

    pub open spec fn same_but_tones(&self, o: &Sound) -> bool {
        self.notes@ == o.notes@ && self.volumes@ == o.volumes@ && self.effects@ == o.effects@
            && self.speed == o.speed
    }

    pub open spec fn same_but_volumes(&self, o: &Sound) -> bool {
        self.notes@ == o.notes@ && self.tones@ == o.tones@ && self.effects@ == o.effects@
            && self.speed == o.speed
    }

    pub open spec fn same_but_effects(&self, o: &Sound) -> bool {
        self.notes@ == o.notes@ && self.tones@ == o.tones@ && self.volumes@ == o.volumes@
            && self.speed == o.speed
    }

    pub fn note_count(&self) -> (r: usize)
        ensures
            r == self.notes@.len(),
    {
        self.notes.len()
    }

    pub fn note_at(&self, index: isize) -> (r: Result<Note, SoundError>)
        ensures
            match position(index, self.notes@.len()) {
                Some(p) => r == Ok::<Note, SoundError>(self.notes@[p as int]),
                None => r == Err::<Note, SoundError>(SoundError::IndexOutOfRange),
            },
    {
        match checked_position(index, self.notes.len()) {
            Some(p) => Ok(self.notes[p]),
            None => Err(SoundError::IndexOutOfRange),
        }
    }

    /// Sets the note at `index` to `value`; a value outside its domain is
    /// `CorruptData`, and the index is checked first.
    pub fn set_note_at(&mut self, index: isize, value: Note) -> (r: Result<(), SoundError>)
        ensures
            match position(index, old(self).notes@.len()) {
                Some(p) => if is_valid_note(value) {
                    r is Ok && final(self).notes@ == old(self).notes@.update(p as int, value)
                } else {
                    r == Err::<(), SoundError>(SoundError::CorruptData) && final(self).notes@
                        == old(self).notes@
                },
                None => r == Err::<(), SoundError>(SoundError::IndexOutOfRange) && final(self).notes@
                    == old(self).notes@,
            },
            final(self).same_but_notes(old(self)),
    {
        match checked_position(index, self.notes.len()) {
            Some(p) => {
                if !(value == -1 || (0 <= value && value <= 59)) {
                    return Err(SoundError::CorruptData);
                }
                self.notes.set(p, value);
                Ok(())
            },
            None => Err(SoundError::IndexOutOfRange),
        }
    }

    /// Replaces the notes with `lst`; a value outside its domain is
    /// `CorruptData` and leaves the notes as they were.
    pub fn notes_from_list(&mut self, lst: Vec<Note>) -> (r: Result<(), SoundError>)
        ensures
            (forall|i: int| 0 <= i < lst@.len() ==> is_valid_note(#[trigger] lst@[i])) ==> r is Ok
                && final(self).notes@ == lst@,
            !(forall|i: int| 0 <= i < lst@.len() ==> is_valid_note(#[trigger] lst@[i])) ==> r
                == Err::<(), SoundError>(SoundError::CorruptData) && final(self).notes@ == old(self).notes@,
            final(self).same_but_notes(old(self)),
    {
        let mut i: usize = 0;
        while i < lst.len()
            invariant
                i <= lst@.len(),
                forall|j: int| 0 <= j < i ==> is_valid_note(#[trigger] lst@[j]),
            decreases lst@.len() - i,
        {
            let x = lst[i];
            if !(x == -1 || (0 <= x && x <= 59)) {
                return Err(SoundError::CorruptData);
            }
            i = i + 1;
        }
        self.notes = lst;
        Ok(())
    }

    pub fn notes_to_list(&self) -> (r: Vec<Note>)
        ensures
            r@ == self.notes@,
    {
        self.notes.clone()
    }

    pub fn tone_count(&self) -> (r: usize)
        ensures
            r == self.tones@.len(),
    {
        self.tones.len()
    }

    /// The ordinal of the tone at `index`.
    pub fn tone_at(&self, index: isize) -> (r: Result<u8, SoundError>)
        ensures
            match position(index, self.tones@.len()) {
                Some(p) => r == Ok::<u8, SoundError>(tone_ordinal_spec(self.tones@[p as int])),
                None => r == Err::<u8, SoundError>(SoundError::IndexOutOfRange),
            },
    {
        match checked_position(index, self.tones.len()) {
            Some(p) => Ok(tone_ordinal(self.tones[p])),
            None => Err(SoundError::IndexOutOfRange),
        }
    }

    /// Sets the tone at `index` to the tone of ordinal `value`; an ordinal
    /// above `5` is `CorruptData`, and the index is checked first.
    pub fn set_tone_at(&mut self, index: isize, value: u8) -> (r: Result<(), SoundError>)
        ensures
            match position(index, old(self).tones@.len()) {
                Some(p) => if value <= 5 {
                    r is Ok && final(self).tones@ == old(self).tones@.update(
                        p as int,
                        tone_of_ordinal_spec(value),
                    )
                } else {
                    r == Err::<(), SoundError>(SoundError::CorruptData) && final(self).tones@ == old(self).tones@
                },
                None => r == Err::<(), SoundError>(SoundError::IndexOutOfRange) && final(self).tones@
                    == old(self).tones@,
            },
            final(self).same_but_tones(old(self)),
    {
        match checked_position(index, self.tones.len()) {
            Some(p) => {
                if value > 5 {
                    return Err(SoundError::CorruptData);
                }
                self.tones.set(p, tone_of_ordinal(value));
                Ok(())
            },
            None => Err(SoundError::IndexOutOfRange),
        }
    }

    /// Replaces the tones with those of the ordinals in `lst`; an ordinal
    /// above `5` is `CorruptData` and leaves the tones as they were.
    pub fn tones_from_list(&mut self, lst: Vec<u8>) -> (r: Result<(), SoundError>)
        ensures
            (forall|i: int| 0 <= i < lst@.len() ==> #[trigger] lst@[i] <= 5) ==> r is Ok
                && final(self).tones@ == lst@.map_values(|k: u8| tone_of_ordinal_spec(k)),
            !(forall|i: int| 0 <= i < lst@.len() ==> #[trigger] lst@[i] <= 5) ==> r == Err::<
                (),
                SoundError,
            >(SoundError::CorruptData) && final(self).tones@ == old(self).tones@,
            final(self).same_but_tones(old(self)),
    {
        let mut tones: Vec<crate::symbols::Tone> = Vec::new();
        let mut i: usize = 0;
        while i < lst.len()
            invariant
                i <= lst@.len(),
                forall|j: int| 0 <= j < i ==> #[trigger] lst@[j] <= 5,
                tones@ =~= lst@.subrange(0, i as int).map_values(|k: u8| tone_of_ordinal_spec(k)),
            decreases lst@.len() - i,
        {
            if lst[i] > 5 {
                return Err(SoundError::CorruptData);
            }
            tones.push(tone_of_ordinal(lst[i]));
            i = i + 1;
        }
        proof {
            assert(lst@.subrange(0, i as int) =~= lst@);
        }
        self.tones = tones;
        Ok(())
    }

    /// The ordinals of the tones.
    pub fn tones_to_list(&self) -> (r: Vec<u8>)
        ensures
            r@ == self.tones@.map_values(|t: crate::symbols::Tone| tone_ordinal_spec(t)),
    {
        let mut out: Vec<u8> = Vec::new();
        let mut i: usize = 0;
        while i < self.tones.len()
            invariant
                i <= self.tones@.len(),
                out@ =~= self.tones@.subrange(0, i as int).map_values(
                    |t: crate::symbols::Tone| tone_ordinal_spec(t),
                ),
            decreases self.tones@.len() - i,
        {
            out.push(tone_ordinal(self.tones[i]));
            i = i + 1;
        }
        proof {
            assert(self.tones@.subrange(0, i as int) =~= self.tones@);
        }
        out
    }

    pub fn volume_count(&self) -> (r: usize)
        ensures
            r == self.volumes@.len(),
    {
        self.volumes.len()
    }

    pub fn volume_at(&self, index: isize) -> (r: Result<Volume, SoundError>)
        ensures
            match position(index, self.volumes@.len()) {
                Some(p) => r == Ok::<Volume, SoundError>(self.volumes@[p as int]),
                None => r == Err::<Volume, SoundError>(SoundError::IndexOutOfRange),
            },
    {
        match checked_position(index, self.volumes.len()) {
            Some(p) => Ok(self.volumes[p]),
            None => Err(SoundError::IndexOutOfRange),
        }
    }

    /// Sets the volume at `index` to `value`; a value outside its domain is
    /// `CorruptData`, and the index is checked first.
    pub fn set_volume_at(&mut self, index: isize, value: Volume) -> (r: Result<(), SoundError>)
        ensures
            match position(index, old(self).volumes@.len()) {
                Some(p) => if value <= MAX_VOLUME {
                    r is Ok && final(self).volumes@ == old(self).volumes@.update(p as int, value)
                } else {
                    r == Err::<(), SoundError>(SoundError::CorruptData) && final(self).volumes@
                        == old(self).volumes@
                },
                None => r == Err::<(), SoundError>(SoundError::IndexOutOfRange) && final(self).volumes@
                    == old(self).volumes@,
            },
            final(self).same_but_volumes(old(self)),
    {
        match checked_position(index, self.volumes.len()) {
            Some(p) => {
                if !(value <= MAX_VOLUME) {
                    return Err(SoundError::CorruptData);
                }
                self.volumes.set(p, value);
                Ok(())
            },
            None => Err(SoundError::IndexOutOfRange),
        }
    }

    /// Replaces the volumes with `lst`; a value outside its domain is
    /// `CorruptData` and leaves the volumes as they were.
    pub fn volumes_from_list(&mut self, lst: Vec<Volume>) -> (r: Result<(), SoundError>)
        ensures
            (forall|i: int| 0 <= i < lst@.len() ==> #[trigger] lst@[i] <= MAX_VOLUME) ==> r is Ok
                && final(self).volumes@ == lst@,
            !(forall|i: int| 0 <= i < lst@.len() ==> #[trigger] lst@[i] <= MAX_VOLUME) ==> r
                == Err::<(), SoundError>(SoundError::CorruptData) && final(self).volumes@ == old(self).volumes@,
            final(self).same_but_volumes(old(self)),
    {
        let mut i: usize = 0;
        while i < lst.len()
            invariant
                i <= lst@.len(),
                forall|j: int| 0 <= j < i ==> #[trigger] lst@[j] <= MAX_VOLUME,
            decreases lst@.len() - i,
        {
            let x = lst[i];
            if !(x <= MAX_VOLUME) {
                return Err(SoundError::CorruptData);
            }
            i = i + 1;
        }
        self.volumes = lst;
        Ok(())
    }

    pub fn volumes_to_list(&self) -> (r: Vec<Volume>)
        ensures
            r@ == self.volumes@,
    {
        self.volumes.clone()
    }

    pub fn effect_count(&self) -> (r: usize)
        ensures
            r == self.effects@.len(),
    {
        self.effects.len()
    }

    pub fn effect_at(&self, index: isize) -> (r: Result<Effect, SoundError>)
        ensures
            match position(index, self.effects@.len()) {
                Some(p) => r == Ok::<Effect, SoundError>(self.effects@[p as int]),
                None => r == Err::<Effect, SoundError>(SoundError::IndexOutOfRange),
            },
    {
        match checked_position(index, self.effects.len()) {
            Some(p) => Ok(self.effects[p]),
            None => Err(SoundError::IndexOutOfRange),
        }
    }

    /// Sets the effect at `index` to `value`; a value outside its domain is
    /// `CorruptData`, and the index is checked first.
    pub fn set_effect_at(&mut self, index: isize, value: Effect) -> (r: Result<(), SoundError>)
        ensures
            match position(index, old(self).effects@.len()) {
                Some(p) => if value <= EFFECT_FADEOUT {
                    r is Ok && final(self).effects@ == old(self).effects@.update(p as int, value)
                } else {
                    r == Err::<(), SoundError>(SoundError::CorruptData) && final(self).effects@
                        == old(self).effects@
                },
                None => r == Err::<(), SoundError>(SoundError::IndexOutOfRange) && final(self).effects@
                    == old(self).effects@,
            },
            final(self).same_but_effects(old(self)),
    {
        match checked_position(index, self.effects.len()) {
            Some(p) => {
                if !(value <= EFFECT_FADEOUT) {
                    return Err(SoundError::CorruptData);
                }
                self.effects.set(p, value);
                Ok(())
            },
            None => Err(SoundError::IndexOutOfRange),
        }
    }

    /// Replaces the effects with `lst`; a value outside its domain is
    /// `CorruptData` and leaves the effects as they were.
    pub fn effects_from_list(&mut self, lst: Vec<Effect>) -> (r: Result<(), SoundError>)
        ensures
            (forall|i: int| 0 <= i < lst@.len() ==> #[trigger] lst@[i] <= EFFECT_FADEOUT) ==> r is Ok
                && final(self).effects@ == lst@,
            !(forall|i: int| 0 <= i < lst@.len() ==> #[trigger] lst@[i] <= EFFECT_FADEOUT) ==> r
                == Err::<(), SoundError>(SoundError::CorruptData) && final(self).effects@ == old(self).effects@,
            final(self).same_but_effects(old(self)),
    {
        let mut i: usize = 0;
        while i < lst.len()
            invariant
                i <= lst@.len(),
                forall|j: int| 0 <= j < i ==> #[trigger] lst@[j] <= EFFECT_FADEOUT,
            decreases lst@.len() - i,
        {
            let x = lst[i];
            if !(x <= EFFECT_FADEOUT) {
                return Err(SoundError::CorruptData);
            }
            i = i + 1;
        }
        self.effects = lst;
        Ok(())
    }

    pub fn effects_to_list(&self) -> (r: Vec<Effect>)
        ensures
            r@ == self.effects@,
    {
        self.effects.clone()
    }
}

} // verus!
