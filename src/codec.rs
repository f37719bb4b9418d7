//! The stored form of a sound: five lines of text, the notes, tones, volumes
//! and effects in hexadecimal (`none` for an empty sequence) and the speed in
//! decimal.
use vstd::prelude::*;

use crate::error::SoundError;
use crate::notes::Note;
use crate::sound::{Sound, Speed};
use crate::symbols::{tone_of_ordinal, tone_of_ordinal_spec, tone_ordinal, tone_ordinal_spec, Tone};
use crate::text::{chars_of, decimal, digit_char, digit_char_spec, parse_u32, parse_u32_spec, push_char, push_decimal};

verus! {

/// The lower-case hexadecimal digit for `d < 16`.
pub open spec fn hex_char_spec(d: nat) -> char {
    if d < 10 {
        digit_char_spec(d)
    } else {
        (('a' as u8) + ((d - 10) as u8)) as u8 as char
    }
}

/// The value of a lower-case hexadecimal digit.
pub open spec fn hex_value(c: char) -> Option<nat> {
    if '0' <= c && c <= '9' {
        Some((c as u32 - '0' as u32) as nat)
    } else if 'a' <= c && c <= 'f' {
        Some((c as u32 - 'a' as u32 + 10) as nat)
    } else {
        None
    }
}

/// The line that stands for an empty sequence.
pub open spec fn none_word() -> Seq<char> {
    seq!['n', 'o', 'n', 'e']
}

/// Two digits for a pitch, `ff` for a rest.
pub open spec fn note_hex(n: Note) -> Seq<char> {
    if n < 0 {
        seq!['f', 'f']
    } else {
        seq![hex_char_spec((n as nat) / 16), hex_char_spec((n as nat) % 16)]
    }
}

/// One digit for a value below 16, two above.
pub open spec fn value_hex(x: u8) -> Seq<char> {
    if x < 16 {
        seq![hex_char_spec(x as nat)]
    } else {
        seq![hex_char_spec((x as nat) / 16), hex_char_spec((x as nat) % 16)]
    }
}

pub open spec fn notes_hex(s: Seq<Note>) -> Seq<char>
    decreases s.len(),
{
    if s.len() == 0 {
        Seq::empty()
    } else {
        notes_hex(s.drop_last()) + note_hex(s.last())
    }
}

pub open spec fn values_hex(s: Seq<u8>) -> Seq<char>
    decreases s.len(),
{
    if s.len() == 0 {
        Seq::empty()
    } else {
        values_hex(s.drop_last()) + value_hex(s.last())
    }
}

pub open spec fn tone_ordinals(s: Seq<Tone>) -> Seq<u8> {
    s.map_values(|t: Tone| tone_ordinal_spec(t))
}

pub open spec fn notes_line(s: Seq<Note>) -> Seq<char> {
    if s.len() == 0 {
        none_word()
    } else {
        notes_hex(s)
    }
}

pub open spec fn values_line(s: Seq<u8>) -> Seq<char> {
    if s.len() == 0 {
        none_word()
    } else {
        values_hex(s)
    }
}

pub open spec fn newline() -> Seq<char> {
    seq!['\n']
}

/// The five lines that store `s`, joined by newlines.
pub open spec fn serialized(s: &Sound) -> Seq<char> {
    notes_line(s.notes@) + newline() + values_line(tone_ordinals(s.tones@)) + newline()
        + values_line(s.volumes@) + newline() + values_line(s.effects@) + newline() + decimal(
        s.speed as nat,
    )
}

/// The lines of `s`, split at each newline.
pub open spec fn split_lines(s: Seq<char>) -> Seq<Seq<char>>
    decreases s.len(),
{
    if s.len() == 0 {
        seq![Seq::empty()]
    } else {
        let prev = split_lines(s.drop_last());
        if s.last() == '\n' {
            prev.push(Seq::empty())
        } else {
            prev.update(prev.len() - 1, prev.last().push(s.last()))
        }
    }
}

/// `l` without one `'\r'` at its end.
pub open spec fn strip_cr(l: Seq<char>) -> Seq<char> {
    if l.len() > 0 && l.last() == '\r' {
        l.drop_last()
    } else {
        l
    }
}

/// The lines of `s` as `str::lines` reads them: a line ends at `'\n'` or
/// `"\r\n"`, and the last line ending is optional, so a final `'\n'` ends
/// the last line instead of starting an empty one.
pub open spec fn text_lines(s: Seq<char>) -> Seq<Seq<char>> {
    let raw = split_lines(s);
    let n = if s.len() == 0 || s.last() == '\n' {
        raw.len() - 1
    } else {
        raw.len() as int
    };
    Seq::new(
        n as nat,
        |i: int|
            if i < raw.len() - 1 {
                strip_cr(raw[i])
            } else {
                raw[i]
            },
    )
}

/// A stored byte read as a note: `ff` is a rest, others the byte as `i8`.
pub open spec fn note_of_byte(b: nat) -> Note {
    if b == 255 {
        -1i8
    } else if b < 128 {
        b as Note
    } else {
        (b - 256) as Note
    }
}

/// Pairs of hexadecimal digits read as notes.
pub open spec fn decode_note_pairs(l: Seq<char>) -> Option<Seq<Note>>
    decreases l.len(),
{
    if l.len() < 2 {
        if l.len() == 0 {
            Some(Seq::empty())
        } else {
            None
        }
    } else {
        match (
            decode_note_pairs(l.subrange(0, l.len() - 2)),
            hex_value(l[l.len() - 2]),
            hex_value(l[l.len() - 1]),
        ) {
            (Some(v), Some(hi), Some(lo)) => Some(v.push(note_of_byte(hi * 16 + lo))),
            _ => None,
        }
    }
}

/// Single hexadecimal digits below `limit`.
pub open spec fn decode_digits(l: Seq<char>, limit: nat) -> Option<Seq<u8>>
    decreases l.len(),
{
    if l.len() == 0 {
        Some(Seq::empty())
    } else {
        match (decode_digits(l.drop_last(), limit), hex_value(l.last())) {
            (Some(v), Some(d)) => if d < limit {
                Some(v.push(d as u8))
            } else {
                None
            },
            _ => None,
        }
    }
}

pub open spec fn notes_field(l: Seq<char>) -> Option<Seq<Note>> {
    if l == none_word() {
        Some(Seq::empty())
    } else {
        decode_note_pairs(l)
    }
}

pub open spec fn digits_field(l: Seq<char>, limit: nat) -> Option<Seq<u8>> {
    if l == none_word() {
        Some(Seq::empty())
    } else {
        decode_digits(l, limit)
    }
}

/// What a sound's content is read back as.
pub struct Decoded {
    pub notes: Seq<Note>,
    pub tones: Seq<Tone>,
    pub volumes: Seq<u8>,
    pub effects: Seq<u8>,
    pub speed: Speed,
}

/// The content that stored text `text` holds: exactly five lines; tones
/// `0` to `5`, volumes any digit, effects `0` to `3`; `CorruptData` for a
/// bad structure or value and `InvalidFormat` for a speed that is no `u32`
/// (`0` is one).
pub open spec fn decoded(text: Seq<char>) -> Result<Decoded, SoundError> {
    let lines = text_lines(text);
    if lines.len() != 5 {
        Err(SoundError::CorruptData)
    } else {
        match (
            notes_field(lines[0]),
            digits_field(lines[1], 6),
            digits_field(lines[2], 16),
            digits_field(lines[3], 4),
        ) {
            (Some(n), Some(t), Some(v), Some(e)) => match parse_u32_spec(lines[4]) {
                Some(sp) => Ok(
                    Decoded {
                        notes: n,
                        tones: t.map_values(|k: u8| tone_of_ordinal_spec(k)),
                        volumes: v,
                        effects: e,
                        speed: sp,
                    },
                ),
                None => Err(SoundError::InvalidFormat),
            },
            _ => Err(SoundError::CorruptData),
        }
    }
}

/// The layouts of stored sounds.
#[derive(Clone, Copy, Debug, PartialEq, Eq, Structural)]
pub enum Layout {
    /// Notes, tones, volumes, effects and speed on five lines.
    FiveLines,
}

/// The layout of format `version`: every version so far has the five-line
/// one, and a new layout gets a variant and an arm here.
pub open spec fn layout_spec(version: u32) -> Layout {
    Layout::FiveLines
}

pub fn layout_for_version(version: u32) -> (r: Layout)
    ensures
        r == layout_spec(version),
{
    Layout::FiveLines
}

/// The content that stored text of format `version` holds.
pub open spec fn decoded_as(version: u32, text: Seq<char>) -> Result<Decoded, SoundError> {
    match layout_spec(version) {
        Layout::FiveLines => decoded(text),
    }
}

fn hex_char(d: u8) -> (r: char)
    requires
        d < 16,
    ensures
        r == hex_char_spec(d as nat),
{
    if d < 10 {
        digit_char(d as u32)
    } else {
        let b: u8 = ('a' as u8) + (d - 10);
        b as char
    }
}

fn hex_digit(c: char) -> (r: Option<u8>)
    ensures
        match hex_value(c) {
            Some(v) => r == Some(v as u8) && v < 16,
            None => r is None,
        },
{
    if '0' <= c && c <= '9' {
        Some((c as u32 - '0' as u32) as u8)
    } else if 'a' <= c && c <= 'f' {
        Some((c as u32 - 'a' as u32 + 10) as u8)
    } else {
        None
    }
}

fn push_none(out: &mut String)
    ensures
        final(out)@ == old(out)@ + none_word(),
{
    push_char(out, 'n');
    push_char(out, 'o');
    push_char(out, 'n');
    push_char(out, 'e');
    proof {
        assert(final(out)@ =~= old(out)@ + none_word());
    }
}

fn push_value(out: &mut String, x: u8)
    ensures
        final(out)@ == old(out)@ + value_hex(x),
{
    if x < 16 {
        push_char(out, hex_char(x));
    } else {
        push_char(out, hex_char(x / 16));
        push_char(out, hex_char(x % 16));
    }
    proof {
        assert(final(out)@ =~= old(out)@ + value_hex(x));
    }
}

fn push_values_line(out: &mut String, v: &Vec<u8>)
    ensures
        final(out)@ == old(out)@ + values_line(v@),
{
    if v.len() == 0 {
        push_none(out);
        return;
    }
    let ghost start = out@;
    let mut i: usize = 0;
    while i < v.len()
        invariant
            i <= v@.len(),
            out@ == start + values_hex(v@.subrange(0, i as int)),
        decreases v@.len() - i,
    {
        proof {
            assert(v@.subrange(0, i + 1).drop_last() =~= v@.subrange(0, i as int));
        }
        push_value(out, v[i]);
        i = i + 1;
        proof {
            assert(out@ =~= start + values_hex(v@.subrange(0, i as int)));
        }
    }
    proof {
        assert(v@.subrange(0, i as int) =~= v@);
    }
}


pub open spec fn line_views(v: Seq<Vec<char>>) -> Seq<Seq<char>> {
    v.map_values(|l: Vec<char>| l@)
}

/// The lines of `s`, as `str::lines` reads them.
fn lines_of(s: &Vec<char>) -> (r: Vec<Vec<char>>)
    ensures
        line_views(r@) == text_lines(s@),
{
    let mut lines: Vec<Vec<char>> = Vec::new();
    let mut cur: Vec<char> = Vec::new();
    let mut i: usize = 0;
    proof {
        assert(s@.subrange(0, 0) =~= Seq::<char>::empty());
    }
    while i < s.len()
        invariant
            i <= s@.len(),
            lines@.len() + 1 == split_lines(s@.subrange(0, i as int)).len(),
            forall|j: int|
                0 <= j < lines@.len() ==> #[trigger] lines@[j]@ == strip_cr(
                    split_lines(s@.subrange(0, i as int))[j],
                ),
            cur@ == split_lines(s@.subrange(0, i as int)).last(),
        decreases s@.len() - i,
    {
        let c = s[i];
        let ghost raw = split_lines(s@.subrange(0, i as int));
        proof {
            assert(s@.subrange(0, i + 1).drop_last() =~= s@.subrange(0, i as int));
        }
        if c == '\n' {
            let k = cur.len();
            if k > 0 && cur[k - 1] == '\r' {
                cur.pop();
            }
            lines.push(cur);
            cur = Vec::new();
            proof {
                let raw2 = split_lines(s@.subrange(0, i + 1));
                assert(raw2 == raw.push(Seq::<char>::empty()));
                assert forall|j: int| 0 <= j < lines@.len() implies #[trigger] lines@[j]@
                    == strip_cr(raw2[j]) by {
                    assert(raw2[j] == raw[j]);
                }
            }
        } else {
            cur.push(c);
            proof {
                let raw2 = split_lines(s@.subrange(0, i + 1));
                assert(raw2 == raw.update(raw.len() - 1, raw.last().push(c)));
                assert forall|j: int| 0 <= j < lines@.len() implies #[trigger] lines@[j]@
                    == strip_cr(raw2[j]) by {
                    assert(raw2[j] == raw[j]);
                }
            }
        }
        i = i + 1;
    }
    proof {
        assert(s@.subrange(0, i as int) =~= s@);
    }
    let n = s.len();
    if n == 0 || s[n - 1] == '\n' {
        proof {
            assert(line_views(lines@) =~= text_lines(s@));
        }
        return lines;
    }
    lines.push(cur);
    proof {
        assert(line_views(lines@) =~= text_lines(s@));
    }
    lines
}

fn is_none_word(l: &Vec<char>) -> (r: bool)
    ensures
        r == (l@ == none_word()),
{
    if l.len() == 4 && l[0] == 'n' && l[1] == 'o' && l[2] == 'n' && l[3] == 'e' {
        proof {
            assert(l@ =~= none_word());
        }
        true
    } else {
        false
    }
}

/// A notes line read back.
fn read_notes_field(l: &Vec<char>) -> (r: Option<Vec<Note>>)
    ensures
        match notes_field(l@) {
            Some(v) => r matches Some(w) && w@ == v,
            None => r is None,
        },
{
    if is_none_word(l) {
        return Some(Vec::new());
    }
    let n = l.len();
    if n % 2 == 1 {
        proof {
            lemma_odd_pairs(l@);
        }
        return None;
    }
    let mut out: Vec<Note> = Vec::new();
    let mut i: usize = 0;
    while i < n
        invariant
            n == l@.len(),
            n % 2 == 0,
            i % 2 == 0,
            l@ != none_word(),
            i <= n,
            decode_note_pairs(l@.subrange(0, i as int)) == Some(out@),
        decreases n - i,
    {
        let ghost p = l@.subrange(0, i + 2);
        proof {
            assert(p.subrange(0, p.len() - 2) =~= l@.subrange(0, i as int));
        }
        let hi = hex_digit(l[i]);
        let lo = hex_digit(l[i + 1]);
        match (hi, lo) {
            (Some(h), Some(o)) => {
                let b: u8 = h * 16 + o;
                let v: Note = if b == 255 {
                    -1
                } else if b < 128 {
                    b as i8
                } else {
                    (b as i16 - 256) as i8
                };
                out.push(v);
            },
            _ => {
                proof {
                    lemma_pairs_fail(l@, i + 2);
                }
                return None;
            },
        }
        i = i + 2;
    }
    proof {
        assert(l@.subrange(0, i as int) =~= l@);
    }
    Some(out)
}

proof fn lemma_odd_pairs(l: Seq<char>)
    requires
        l.len() % 2 == 1,
    ensures
        decode_note_pairs(l) is None,
    decreases l.len(),
{
    if l.len() >= 2 {
        lemma_odd_pairs(l.subrange(0, l.len() - 2));
    }
}

proof fn lemma_pairs_fail(l: Seq<char>, i: int)
    requires
        2 <= i <= l.len(),
        (l.len() - i) % 2 == 0,
        decode_note_pairs(l.subrange(0, i)) is None,
    ensures
        decode_note_pairs(l) is None,
    decreases l.len() - i,
{
    if i < l.len() {
        assert(l.subrange(0, i + 2).subrange(0, i) =~= l.subrange(0, i));
        lemma_pairs_fail(l, i + 2);
    } else {
        assert(l.subrange(0, i) =~= l);
    }
}

proof fn lemma_digits_fail(l: Seq<char>, limit: nat, i: int)
    requires
        1 <= i <= l.len(),
        decode_digits(l.subrange(0, i), limit) is None,
    ensures
        decode_digits(l, limit) is None,
    decreases l.len() - i,
{
    if i < l.len() {
        assert(l.subrange(0, i + 1).drop_last() =~= l.subrange(0, i));
        lemma_digits_fail(l, limit, i + 1);
    } else {
        assert(l.subrange(0, i) =~= l);
    }
}

/// A line of single digits below `limit` read back.
fn read_digits_field(l: &Vec<char>, limit: u8) -> (r: Option<Vec<u8>>)
    requires
        limit <= 16,
    ensures
        match digits_field(l@, limit as nat) {
            Some(v) => r matches Some(w) && w@ == v,
            None => r is None,
        },
{
    if is_none_word(l) {
        return Some(Vec::new());
    }
    let mut out: Vec<u8> = Vec::new();
    let mut i: usize = 0;
    while i < l.len()
        invariant
            i <= l@.len(),
            l@ != none_word(),
            decode_digits(l@.subrange(0, i as int), limit as nat) == Some(out@),
        decreases l@.len() - i,
    {
        proof {
            assert(l@.subrange(0, i + 1).drop_last() =~= l@.subrange(0, i as int));
        }
        match hex_digit(l[i]) {
            Some(d) => {
                if d >= limit {
                    proof {
                        lemma_digits_fail(l@, limit as nat, i + 1);
                    }
                    return None;
                }
                out.push(d);
            },
            None => {
                proof {
                    lemma_digits_fail(l@, limit as nat, i + 1);
                }
                return None;
            },
        }
        i = i + 1;
    }
    proof {
        assert(l@.subrange(0, i as int) =~= l@);
    }
    Some(out)
}

impl Sound {
    /// The stored form: five lines joined by newlines, no newline at the end.
    pub fn serialize(&self) -> (r: String)
        ensures
            r@ == serialized(self),
    {
        let mut out = String::new();
        if self.notes.len() == 0 {
            push_none(&mut out);
        } else {
            let mut i: usize = 0;
            while i < self.notes.len()
                invariant
                    i <= self.notes@.len(),
                    out@ == notes_hex(self.notes@.subrange(0, i as int)),
                decreases self.notes@.len() - i,
            {
                proof {
                    assert(self.notes@.subrange(0, i + 1).drop_last() =~= self.notes@.subrange(
                        0,
                        i as int,
                    ));
                }
                let n = self.notes[i];
                if n < 0 {
                    push_char(&mut out, 'f');
                    push_char(&mut out, 'f');
                } else {
                    let b: u8 = n as u8;
                    push_char(&mut out, hex_char(b / 16));
                    push_char(&mut out, hex_char(b % 16));
                }
                i = i + 1;
                proof {
                    assert(out@ =~= notes_hex(self.notes@.subrange(0, i as int)));
                }
            }
            proof {
                assert(self.notes@.subrange(0, i as int) =~= self.notes@);
            }
        }
        push_char(&mut out, '\n');
        let mut ordinals: Vec<u8> = Vec::new();
        let mut j: usize = 0;
        while j < self.tones.len()
            invariant
                j <= self.tones@.len(),
                ordinals@ =~= tone_ordinals(self.tones@.subrange(0, j as int)),
            decreases self.tones@.len() - j,
        {
            ordinals.push(tone_ordinal(self.tones[j]));
            j = j + 1;
        }
        proof {
            assert(self.tones@.subrange(0, j as int) =~= self.tones@);
        }
        push_values_line(&mut out, &ordinals);
        push_char(&mut out, '\n');
        push_values_line(&mut out, &self.volumes);
        push_char(&mut out, '\n');
        push_values_line(&mut out, &self.effects);
        push_char(&mut out, '\n');
        push_decimal(&mut out, self.speed);
        proof {
            assert(out@ =~= serialized(self));
        }
        out
    }

    /// Replaces the content with what stored text `input` of format
    /// `version` holds; on an error the sound is left as it was.
    pub fn deserialize(&mut self, version: u32, input: &str) -> (r: Result<(), SoundError>)
        ensures
            match decoded_as(version, input@) {
                Ok(d) => r is Ok && final(self).notes@ == d.notes && final(self).tones@ == d.tones
                    && final(self).volumes@ == d.volumes && final(self).effects@ == d.effects
                    && final(self).speed == d.speed,
                Err(e) => r == Err::<(), SoundError>(e) && *final(self) == *old(self),
            },
    {
        match layout_for_version(version) {
            Layout::FiveLines => self.read_five_lines(input),
        }
    }

    /// Reads text in the five-line layout.
    fn read_five_lines(&mut self, input: &str) -> (r: Result<(), SoundError>)
        ensures
            match decoded(input@) {
                Ok(d) => r is Ok && final(self).notes@ == d.notes && final(self).tones@ == d.tones
                    && final(self).volumes@ == d.volumes && final(self).effects@ == d.effects
                    && final(self).speed == d.speed,
                Err(e) => r == Err::<(), SoundError>(e) && *final(self) == *old(self),
            },
    {
        let chars = chars_of(input);
        let lines = lines_of(&chars);
        if lines.len() != 5 {
            return Err(SoundError::CorruptData);
        }
        proof {
            assert(lines@[0]@ == text_lines(input@)[0]);
            assert(lines@[1]@ == text_lines(input@)[1]);
            assert(lines@[2]@ == text_lines(input@)[2]);
            assert(lines@[3]@ == text_lines(input@)[3]);
            assert(lines@[4]@ == text_lines(input@)[4]);
        }
        let notes = match read_notes_field(&lines[0]) {
            Some(v) => v,
            None => {
                return Err(SoundError::CorruptData);
            },
        };
        let ordinals = match read_digits_field(&lines[1], 6) {
            Some(v) => v,
            None => {
                return Err(SoundError::CorruptData);
            },
        };
        let volumes = match read_digits_field(&lines[2], 16) {
            Some(v) => v,
            None => {
                return Err(SoundError::CorruptData);
            },
        };
        let effects = match read_digits_field(&lines[3], 4) {
            Some(v) => v,
            None => {
                return Err(SoundError::CorruptData);
            },
        };
        let speed = match parse_u32(&lines[4]) {
            Some(v) => v,
            None => {
                return Err(SoundError::InvalidFormat);
            },
        };
        proof {
            lemma_digits_below(lines@[1]@, 6);
        }
        let mut tones: Vec<Tone> = Vec::new();
        let mut i: usize = 0;
        while i < ordinals.len()
            invariant
                i <= ordinals@.len(),
                forall|j: int| 0 <= j < ordinals@.len() ==> #[trigger] ordinals@[j] < 6,
                tones@ =~= ordinals@.subrange(0, i as int).map_values(
                    |k: u8| tone_of_ordinal_spec(k),
                ),
            decreases ordinals@.len() - i,
        {
            tones.push(tone_of_ordinal(ordinals[i]));
            i = i + 1;
        }
        proof {
            assert(ordinals@.subrange(0, i as int) =~= ordinals@);
        }
        self.clear();
        self.notes = notes;
        self.tones = tones;
        self.volumes = volumes;
        self.effects = effects;
        self.speed = speed;
        Ok(())
    }
}

proof fn lemma_digits_below(l: Seq<char>, limit: nat)
    ensures
        digits_field(l, limit) matches Some(v) ==> forall|j: int|
            0 <= j < v.len() ==> #[trigger] v[j] < limit,
{
    lemma_decoded_below(l, limit);
}

proof fn lemma_decoded_below(l: Seq<char>, limit: nat)
    ensures
        decode_digits(l, limit) matches Some(v) ==> v.len() == l.len() && forall|j: int|
            0 <= j < v.len() ==> #[trigger] v[j] < limit,
    decreases l.len(),
{
    if l.len() > 0 {
        lemma_decoded_below(l.drop_last(), limit);
    }
}

} // verus!
