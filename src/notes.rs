//! The note mini-language: `r` for a rest, or a pitch letter, an optional
//! accidental and an octave digit.
use vstd::prelude::*;

use crate::error::SoundError;
use crate::text::{normalize, normalized_chars};

verus! {

/// A pitch: `-1` is a rest, otherwise `octave * 12 + semitone`.
pub type Note = i8;

pub const REST: Note = -1;

pub open spec fn is_pitch_letter(c: char) -> bool {
    c == 'c' || c == 'd' || c == 'e' || c == 'f' || c == 'g' || c == 'a' || c == 'b'
}

pub open spec fn pitch_offset_spec(c: char) -> int {
    if c == 'c' {
        0
    } else if c == 'd' {
        2
    } else if c == 'e' {
        4
    } else if c == 'f' {
        5
    } else if c == 'g' {
        7
    } else if c == 'a' {
        9
    } else {
        11
    }
}

pub open spec fn is_octave_digit(c: char) -> bool {
    '0' <= c && c <= '4'
}

pub open spec fn is_accidental(c: char) -> bool {
    c == '#' || c == '-'
}

pub open spec fn accidental_shift(c: char) -> int {
    if c == '#' {
        1
    } else {
        -1
    }
}

/// The character at `i`, or `'\0'` past the end.
pub open spec fn char_or_nul(s: Seq<char>, i: int) -> char {
    if 0 <= i < s.len() {
        s[i]
    } else {
        '\0'
    }
}

/// The value of the token at the start of `s` and how many characters it
/// takes, or the character that breaks it.
pub open spec fn note_token(s: Seq<char>) -> Result<(int, nat), SoundError> {
    let c = char_or_nul(s, 0);
    if c == 'r' {
        Ok((-1, 1))
    } else if is_pitch_letter(c) {
        let c1 = char_or_nul(s, 1);
        if is_accidental(c1) {
            let c2 = char_or_nul(s, 2);
            if is_octave_digit(c2) {
                Ok(
                    (
                        pitch_offset_spec(c) + accidental_shift(c1) + (c2 as int - '0' as int)
                            * 12,
                        3,
                    ),
                )
            } else {
                Err(SoundError::InvalidNote(c2))
            }
        } else if is_octave_digit(c1) {
            Ok((pitch_offset_spec(c) + (c1 as int - '0' as int) * 12, 2))
        } else {
            Err(SoundError::InvalidNote(c1))
        }
    } else {
        Err(SoundError::InvalidNote(c))
    }
}

/// The notes that normalized text `s` spells, read left to right, or the
/// first error.
pub open spec fn parse_notes_spec(s: Seq<char>) -> Result<Seq<int>, SoundError>
    decreases s.len(),
{
    if s.len() == 0 {
        Ok(Seq::empty())
    } else {
        match note_token(s) {
            Err(e) => Err(e),
            Ok((v, n)) => if n <= s.len() {
                match parse_notes_spec(s.skip(n as int)) {
                    Ok(rest) => Ok(seq![v] + rest),
                    Err(e) => Err(e),
                }
            } else {
                Err(SoundError::InvalidNote('\0'))
            },
        }
    }
}

/// `done` followed by what `rest` parses to.
pub open spec fn prepend_notes(done: Seq<int>, rest: Result<Seq<int>, SoundError>) -> Result<
    Seq<int>,
    SoundError,
> {
    match rest {
        Ok(r) => Ok(done + r),
        Err(e) => Err(e),
    }
}

pub open spec fn notes_as_int(v: Seq<Note>) -> Seq<int> {
    v.map_values(|x: Note| x as int)
}

/// What the text of a `set_notes` call yields.
pub open spec fn notes_of_text(text: Seq<char>) -> Result<Seq<int>, SoundError> {
    parse_notes_spec(normalize(text))
}

proof fn lemma_token_length(s: Seq<char>)
    requires
        s.len() > 0,
    ensures
        note_token(s) matches Ok((v, n)) ==> 1 <= n <= s.len() && -1 <= v <= 60,
{
}

fn pitch_offset(c: char) -> (r: i8)
    requires
        is_pitch_letter(c),
    ensures
        r as int == pitch_offset_spec(c),
{
    match c {
        'c' => 0,
        'd' => 2,
        'e' => 4,
        'f' => 5,
        'g' => 7,
        'a' => 9,
        _ => 11,
    }
}

/// Reads the token that starts at `i`: its value and the position after it.
fn read_note(s: &Vec<char>, i: usize) -> (r: Result<(Note, usize), SoundError>)
    requires
        i < s@.len(),
    ensures
        match note_token(s@.skip(i as int)) {
            Ok((v, n)) => r == Ok::<(Note, usize), SoundError>((v as Note, (i + n) as usize)) && i
                + n <= s@.len() && v == v as Note,
            Err(e) => r == Err::<(Note, usize), SoundError>(e),
        },
{
    let ghost t = s@.skip(i as int);
    proof {
        lemma_token_length(t);
    }
    let n = s.len();
    let c = s[i];
    if c == 'r' {
        return Ok((REST, i + 1));
    }
    if !('a' <= c && c <= 'g') {
        return Err(SoundError::InvalidNote(c));
    }
    let mut note: Note = pitch_offset(c);
    let mut j: usize = i + 1;
    let mut d: char = if j < n { s[j] } else { '\0' };
    if d == '#' {
        note = note + 1;
        j = j + 1;
        d = if j < n { s[j] } else { '\0' };
    } else if d == '-' {
        note = note - 1;
        j = j + 1;
        d = if j < n { s[j] } else { '\0' };
    }
    if '0' <= d && d <= '4' {
        let octave: Note = (d as u8 - '0' as u8) as Note;
        Ok((note + octave * 12, j + 1))
    } else {
        Err(SoundError::InvalidNote(d))
    }
}

/// Parses note text: white space and case are ignored; each token adds one
/// note.
pub fn parse_notes(text: &str) -> (r: Result<Vec<Note>, SoundError>)
    ensures
        match notes_of_text(text@) {
            Ok(v) => r matches Ok(w) && notes_as_int(w@) == v,
            Err(e) => r == Err::<Vec<Note>, SoundError>(e),
        },
{
    let s = normalized_chars(text);
    let ghost g = s@;
    let mut out: Vec<Note> = Vec::new();
    let mut i: usize = 0;
    proof {
        assert(g.skip(0) =~= g);
        assert(notes_as_int(out@) =~= Seq::<int>::empty());
        match parse_notes_spec(g) {
            Ok(r) => {
                assert(Seq::<int>::empty() + r =~= r);
            },
            Err(_) => {},
        }
    }
    while i < s.len()
        invariant
            g == s@,
            g == normalize(text@),
            i <= s@.len(),
            parse_notes_spec(g) == prepend_notes(notes_as_int(out@), parse_notes_spec(g.skip(i as int))),
        decreases s@.len() - i,
    {
        let ghost t = g.skip(i as int);
        match read_note(&s, i) {
            Err(e) => {
                proof {
                    assert(parse_notes_spec(t) == Err::<Seq<int>, SoundError>(e));
                }
                return Err(e);
            },
            Ok((v, k)) => {
                proof {
                    assert(t.skip((k - i) as int) =~= g.skip(k as int));
                    assert(notes_as_int(out@.push(v)) =~= notes_as_int(out@) + seq![v as int]);
                    match parse_notes_spec(g.skip(k as int)) {
                        Ok(rest) => {
                            assert(notes_as_int(out@) + (seq![v as int] + rest) =~= notes_as_int(out@.push(v)) + rest);
                        },
                        Err(_) => {},
                    }
                }
                out.push(v);
                i = k;
            },
        }
    }
    proof {
        assert(g.skip(i as int) =~= Seq::<char>::empty());
        assert(notes_as_int(out@) + Seq::<int>::empty() =~= notes_as_int(out@));
    }
    Ok(out)
}

} // verus!
