//! What holds of the codec, the parsers and the sound across calls.
use vstd::prelude::*;

use crate::codec::{
    decode_digits, decode_note_pairs, decoded, decoded_as, digits_field, hex_char_spec, hex_value, newline,
    none_word, note_hex, note_of_byte, notes_field, notes_hex, notes_line, serialized, split_lines,
    strip_cr, text_lines,
    tone_ordinals, value_hex, values_hex, values_line,
};
use crate::error::SoundError;
use crate::notes::{note_token, notes_of_text, parse_notes_spec, Note};
use crate::sound::{is_valid_note, Sound};
use crate::symbols::{
    effects_of_text, tone_of_ordinal_spec, tone_ordinal_spec, tones_of_text, volumes_of_text, Tone,
};
use crate::text::{decimal, fold_case_spec, is_space_spec, lemma_parse_decimal, normalize};

verus! {

pub open spec fn has_no_newline(s: Seq<char>) -> bool {
    forall|i: int| 0 <= i < s.len() ==> #[trigger] s[i] != '\n'
}

proof fn lemma_append_line(a: Seq<char>, b: Seq<char>)
    requires
        has_no_newline(b),
    ensures
        split_lines(a + b) == split_lines(a).update(
            split_lines(a).len() - 1,
            split_lines(a).last() + b,
        ),
        split_lines(a + b).len() == split_lines(a).len(),
    decreases b.len(),
{
    lemma_lines_nonempty(a);
    if b.len() == 0 {
        assert(a + b =~= a);
        assert(split_lines(a).last() + b =~= split_lines(a).last());
        assert(split_lines(a).update(split_lines(a).len() - 1, split_lines(a).last())
            =~= split_lines(a));
    } else {
        let b0 = b.drop_last();
        lemma_append_line(a, b0);
        assert((a + b).drop_last() =~= a + b0);
        assert((a + b).last() == b.last());
        lemma_lines_nonempty(a + b0);
        assert(b[b.len() - 1] != '\n');
        let k = split_lines(a).len() - 1;
        let prev = split_lines(a + b0);
        assert(prev.last() == split_lines(a).last() + b0);
        assert((split_lines(a).last() + b0).push(b.last()) =~= split_lines(a).last() + b);
        assert(split_lines(a + b) == prev.update(k, prev.last().push(b.last())));
        assert(split_lines(a + b) =~= split_lines(a).update(
            split_lines(a).len() - 1,
            split_lines(a).last() + b,
        ));
    }
}

proof fn lemma_lines_nonempty(s: Seq<char>)
    ensures
        split_lines(s).len() >= 1,
    decreases s.len(),
{
    if s.len() > 0 {
        lemma_lines_nonempty(s.drop_last());
    }
}

/// A newline and then a line without one add that line.
proof fn lemma_next_line(a: Seq<char>, b: Seq<char>)
    requires
        has_no_newline(b),
    ensures
        split_lines(a + newline() + b) == split_lines(a).push(b),
{
    let an = a + newline();
    assert(an.drop_last() =~= a);
    lemma_append_line(an, b);
    assert(split_lines(an) == split_lines(a).push(Seq::empty()));
    assert(Seq::<char>::empty() + b =~= b);
    assert(split_lines(an).update(split_lines(an).len() - 1, split_lines(an).last() + b)
        =~= split_lines(a).push(b));
}

proof fn lemma_single_line(b: Seq<char>)
    requires
        has_no_newline(b),
    ensures
        split_lines(b) == seq![b],
{
    lemma_append_line(Seq::empty(), b);
    assert(Seq::<char>::empty() + b =~= b);
    assert(split_lines(Seq::<char>::empty()) == seq![Seq::<char>::empty()]);
    assert(seq![Seq::<char>::empty()].update(0, Seq::<char>::empty() + b) =~= seq![b]);
}

proof fn lemma_hex_char(d: nat)
    requires
        d < 16,
    ensures
        hex_value(hex_char_spec(d)) == Some(d),
        hex_char_spec(d) != '\n',
        hex_char_spec(d) != 'n',
{
}

proof fn lemma_notes_hex(s: Seq<Note>)
    ensures
        notes_hex(s).len() == 2 * s.len(),
        forall|i: int| 0 <= i < notes_hex(s).len() ==> #[trigger] hex_value(notes_hex(s)[i]) is Some,
    decreases s.len(),
{
    if s.len() > 0 {
        lemma_notes_hex(s.drop_last());
        let n = s.last();
        if n >= 0 {
            lemma_hex_char((n as nat) / 16);
            lemma_hex_char((n as nat) % 16);
        }
        let h = notes_hex(s.drop_last());
        assert forall|i: int| 0 <= i < notes_hex(s).len() implies #[trigger] hex_value(
            notes_hex(s)[i],
        ) is Some by {
            if i < h.len() {
                assert(notes_hex(s)[i] == h[i]);
            } else {
                assert(notes_hex(s)[i] == note_hex(n)[i - h.len()]);
            }
        }
    }
}

proof fn lemma_values_hex(s: Seq<u8>)
    ensures
        forall|i: int| 0 <= i < values_hex(s).len() ==> #[trigger] hex_value(values_hex(s)[i]) is Some,
        (forall|i: int| 0 <= i < s.len() ==> #[trigger] s[i] < 16) ==> values_hex(s).len()
            == s.len(),
    decreases s.len(),
{
    if s.len() > 0 {
        lemma_values_hex(s.drop_last());
        let x = s.last();
        if x < 16 {
            lemma_hex_char(x as nat);
        } else {
            lemma_hex_char((x as nat) / 16);
            lemma_hex_char((x as nat) % 16);
        }
        let h = values_hex(s.drop_last());
        assert forall|i: int| 0 <= i < values_hex(s).len() implies #[trigger] hex_value(
            values_hex(s)[i],
        ) is Some by {
            if i < h.len() {
                assert(values_hex(s)[i] == h[i]);
            } else {
                assert(values_hex(s)[i] == value_hex(x)[i - h.len()]);
            }
        }
        if forall|i: int| 0 <= i < s.len() ==> #[trigger] s[i] < 16 {
            assert forall|i: int| 0 <= i < s.drop_last().len() implies #[trigger] s.drop_last()[i]
                < 16 by {
                assert(s.drop_last()[i] == s[i]);
            }
            assert(x == s[s.len() - 1]);
        }
    }
}

proof fn lemma_hex_line(l: Seq<char>)
    requires
        forall|i: int| 0 <= i < l.len() ==> #[trigger] hex_value(l[i]) is Some,
    ensures
        has_no_newline(l),
        l != none_word(),
{
    assert forall|i: int| 0 <= i < l.len() implies #[trigger] l[i] != '\n' by {
        assert(hex_value(l[i]) is Some);
    }
    if l.len() == 4 {
        assert(hex_value(l[0]) is Some);
        assert(none_word()[0] == 'n');
    }
}

proof fn lemma_decimal_line(n: nat)
    ensures
        has_no_newline(decimal(n)),
    decreases n,
{
    if n >= 10 {
        lemma_decimal_line(n / 10);
    }
}

proof fn lemma_note_pairs_back(s: Seq<Note>)
    requires
        forall|i: int| 0 <= i < s.len() ==> is_valid_note(#[trigger] s[i]),
    ensures
        decode_note_pairs(notes_hex(s)) == Some(s),
    decreases s.len(),
{
    if s.len() == 0 {
        assert(notes_hex(s) =~= Seq::<char>::empty());
    } else {
        let p = s.drop_last();
        assert forall|i: int| 0 <= i < p.len() implies is_valid_note(#[trigger] p[i]) by {
            assert(p[i] == s[i]);
        }
        lemma_note_pairs_back(p);
        lemma_notes_hex(p);
        let l = notes_hex(s);
        let n = s.last();
        assert(is_valid_note(s[s.len() - 1]));
        assert(l.subrange(0, l.len() - 2) =~= notes_hex(p));
        assert(l[l.len() - 2] == note_hex(n)[0]);
        assert(l[l.len() - 1] == note_hex(n)[1]);
        if n >= 0 {
            lemma_hex_char((n as nat) / 16);
            lemma_hex_char((n as nat) % 16);
            assert(note_of_byte(((n as nat) / 16) * 16 + (n as nat) % 16) == n);
        } else {
            assert(hex_value('f') == Some(15nat));
            assert(note_of_byte(15 * 16 + 15) == n);
        }
        assert(p.push(n) =~= s);
    }
}

proof fn lemma_digits_back(s: Seq<u8>, limit: nat)
    requires
        limit <= 16,
        forall|i: int| 0 <= i < s.len() ==> #[trigger] s[i] < limit,
    ensures
        decode_digits(values_hex(s), limit) == Some(s),
    decreases s.len(),
{
    if s.len() == 0 {
        assert(values_hex(s) =~= Seq::<char>::empty());
    } else {
        let p = s.drop_last();
        assert forall|i: int| 0 <= i < p.len() implies #[trigger] p[i] < limit by {
            assert(p[i] == s[i]);
        }
        lemma_digits_back(p, limit);
        let x = s.last();
        assert(x == s[s.len() - 1]);
        lemma_hex_char(x as nat);
        let l = values_hex(s);
        assert(l =~= values_hex(p).push(hex_char_spec(x as nat)));
        assert(l.drop_last() =~= values_hex(p));
        assert(p.push(x) =~= s);
    }
}

proof fn lemma_serialized_raw_lines(s: &Sound)
    ensures
        split_lines(serialized(s)) == seq![
            notes_line(s.notes@),
            values_line(tone_ordinals(s.tones@)),
            values_line(s.volumes@),
            values_line(s.effects@),
            decimal(s.speed as nat),
        ],
{
    let l0 = notes_line(s.notes@);
    let l1 = values_line(tone_ordinals(s.tones@));
    let l2 = values_line(s.volumes@);
    let l3 = values_line(s.effects@);
    let l4 = decimal(s.speed as nat);
    lemma_notes_hex(s.notes@);
    lemma_values_hex(tone_ordinals(s.tones@));
    lemma_values_hex(s.volumes@);
    lemma_values_hex(s.effects@);
    if s.notes@.len() > 0 {
        lemma_hex_line(l0);
    }
    if s.tones@.len() > 0 {
        lemma_hex_line(l1);
    }
    if s.volumes@.len() > 0 {
        lemma_hex_line(l2);
    }
    if s.effects@.len() > 0 {
        lemma_hex_line(l3);
    }
    lemma_decimal_line(s.speed as nat);
    lemma_single_line(l0);
    lemma_next_line(l0, l1);
    lemma_next_line(l0 + newline() + l1, l2);
    lemma_next_line(l0 + newline() + l1 + newline() + l2, l3);
    lemma_next_line(l0 + newline() + l1 + newline() + l2 + newline() + l3, l4);
    assert(split_lines(serialized(s)) =~= seq![l0, l1, l2, l3, l4]);
}

proof fn lemma_no_cr_end(l: Seq<char>)
    requires
        l == none_word() || forall|i: int| 0 <= i < l.len() ==> #[trigger] hex_value(l[i]) is Some,
    ensures
        strip_cr(l) == l,
{
    if l.len() > 0 && l != none_word() {
        assert(hex_value(l[l.len() - 1]) is Some);
    }
}

/// The lines of a stored sound are its five fields, in order.
pub proof fn lemma_serialized_lines(s: &Sound)
    ensures
        text_lines(serialized(s)) == seq![
            notes_line(s.notes@),
            values_line(tone_ordinals(s.tones@)),
            values_line(s.volumes@),
            values_line(s.effects@),
            decimal(s.speed as nat),
        ],
{
    lemma_serialized_raw_lines(s);
    let raw = split_lines(serialized(s));
    let l4 = decimal(s.speed as nat);
    lemma_decimal_line(s.speed as nat);
    assert(l4.len() > 0);
    assert(serialized(s).last() == l4.last());
    assert(l4[l4.len() - 1] != '\n');
    lemma_notes_hex(s.notes@);
    lemma_values_hex(tone_ordinals(s.tones@));
    lemma_values_hex(s.volumes@);
    lemma_values_hex(s.effects@);
    lemma_no_cr_end(raw[0]);
    lemma_no_cr_end(raw[1]);
    lemma_no_cr_end(raw[2]);
    lemma_no_cr_end(raw[3]);
    assert(text_lines(serialized(s)) =~= raw);
}

/// Reading back what `serialize` writes for a valid sound, under any format
/// version, gives the same sequences and speed, whichever of them are empty.
pub proof fn lemma_round_trip(version: u32, s: &Sound)
    requires
        s.is_valid(),
    ensures
        decoded_as(version, serialized(s)) matches Ok(d) && d.notes == s.notes@ && d.tones == s.tones@
            && d.volumes == s.volumes@ && d.effects == s.effects@ && d.speed == s.speed,
{
    lemma_serialized_lines(s);
    let lines = text_lines(serialized(s));
    let ords = tone_ordinals(s.tones@);
    // notes
    lemma_notes_hex(s.notes@);
    if s.notes@.len() > 0 {
        lemma_hex_line(notes_hex(s.notes@));
        lemma_note_pairs_back(s.notes@);
    }
    assert(notes_field(lines[0]) == Some(s.notes@)) by {
        if s.notes@.len() == 0 {
            assert(s.notes@ =~= Seq::<Note>::empty());
        }
    }
    // tones, volumes, effects
    assert forall|i: int| 0 <= i < ords.len() implies #[trigger] ords[i] < 6 by {
        assert(ords[i] == tone_ordinal_spec(s.tones@[i]));
    }
    lemma_digits_field_back(ords, 6);
    lemma_digits_field_back(s.effects@, 4);
    assert(digits_field(lines[2], 16) == Some(s.volumes@)) by {
        lemma_digits_field_back(s.volumes@, 16);
    }
    lemma_parse_decimal(s.speed);
    assert(ords.map_values(|k: u8| tone_of_ordinal_spec(k)) =~= s.tones@) by {
        assert forall|i: int| 0 <= i < s.tones@.len() implies tone_of_ordinal_spec(
            #[trigger] ords[i],
        ) == s.tones@[i] by {
            lemma_ordinal_back(s.tones@[i]);
        }
    }
}

proof fn lemma_ordinal_back(t: Tone)
    ensures
        tone_of_ordinal_spec(tone_ordinal_spec(t)) == t,
{
}

proof fn lemma_digits_field_back(s: Seq<u8>, limit: nat)
    requires
        limit <= 16,
        forall|i: int| 0 <= i < s.len() ==> #[trigger] s[i] < limit,
    ensures
        digits_field(values_line(s), limit) == Some(s),
{
    if s.len() == 0 {
        assert(s =~= Seq::<u8>::empty());
    } else {
        lemma_values_hex(s);
        lemma_hex_line(values_hex(s));
        lemma_digits_back(s, limit);
    }
}

/// An empty sequence is stored as the line `none`.
pub proof fn lemma_empty_is_none(s: &Sound)
    ensures
        s.notes@.len() == 0 ==> text_lines(serialized(s))[0] == none_word(),
        s.tones@.len() == 0 ==> text_lines(serialized(s))[1] == none_word(),
        s.volumes@.len() == 0 ==> text_lines(serialized(s))[2] == none_word(),
        s.effects@.len() == 0 ==> text_lines(serialized(s))[3] == none_word(),
{
    lemma_serialized_lines(s);
}

/// A `none` line is read back as an empty sequence.
pub proof fn lemma_none_is_empty(version: u32, text: Seq<char>)
    ensures
        decoded_as(version, text) matches Ok(d) ==> {
            &&& text_lines(text)[0] == none_word() ==> d.notes.len() == 0
            &&& text_lines(text)[1] == none_word() ==> d.tones.len() == 0
            &&& text_lines(text)[2] == none_word() ==> d.volumes.len() == 0
            &&& text_lines(text)[3] == none_word() ==> d.effects.len() == 0
        },
{
}

/// No `b`, `#`, `4` in a row.
pub open spec fn lacks_b_sharp_4(s: Seq<char>) -> bool {
    forall|i: int|
        0 <= i && i + 2 < s.len() ==> !(#[trigger] s[i] == 'b' && s[i + 1] == '#' && s[i + 2]
            == '4')
}

proof fn lemma_parsed_range(s: Seq<char>)
    ensures
        parse_notes_spec(s) matches Ok(v) ==> forall|i: int|
            0 <= i < v.len() ==> -1 <= #[trigger] v[i] <= 60,
        parse_notes_spec(s) matches Ok(v) ==> lacks_b_sharp_4(s) ==> forall|i: int|
            0 <= i < v.len() ==> #[trigger] v[i] == -1 || 0 <= v[i] <= 59,
    decreases s.len(),
{
    if s.len() > 0 {
        if let Ok((x, n)) = note_token(s) {
            if n <= s.len() {
                let t = s.skip(n as int);
                lemma_parsed_range(t);
                if lacks_b_sharp_4(s) {
                    assert forall|i: int| 0 <= i && i + 2 < t.len() implies !(#[trigger] t[i]
                        == 'b' && t[i + 1] == '#' && t[i + 2] == '4') by {
                        assert(t[i] == s[i + n]);
                        assert(t[i + 1] == s[i + 1 + n]);
                        assert(t[i + 2] == s[i + 2 + n]);
                    }
                    if s.len() >= 3 {
                        assert(!(s[0] == 'b' && s[1] == '#' && s[2] == '4'));
                    }
                }
                if let Ok(rest) = parse_notes_spec(t) {
                    let v = seq![x] + rest;
                    assert forall|i: int| 0 < i < v.len() implies v[i] == rest[i - 1] by {}
                }
            }
        }
    }
}

/// Every note that text yields is a rest or a pitch from `0` to `60`; the
/// pitch `60` needs the token `b#4`, so text without it yields only rests and
/// pitches from `0` to `59`.
pub proof fn lemma_note_range(text: Seq<char>)
    ensures
        notes_of_text(text) matches Ok(v) ==> forall|i: int|
            0 <= i < v.len() ==> -1 <= #[trigger] v[i] <= 60,
        notes_of_text(text) matches Ok(v) ==> lacks_b_sharp_4(normalize(text)) ==> forall|i: int|
            0 <= i < v.len() ==> #[trigger] v[i] == -1 || 0 <= v[i] <= 59,
{
    lemma_parsed_range(normalize(text));
}

pub open spec fn all_space(s: Seq<char>) -> bool {
    forall|i: int| 0 <= i < s.len() ==> is_space_spec(#[trigger] s[i])
}

proof fn lemma_normalize_concat(a: Seq<char>, b: Seq<char>)
    ensures
        normalize(a + b) == normalize(a) + normalize(b),
    decreases b.len(),
{
    if b.len() == 0 {
        assert(a + b =~= a);
        assert(normalize(a) + normalize(b) =~= normalize(a));
    } else {
        lemma_normalize_concat(a, b.drop_last());
        assert((a + b).drop_last() =~= a + b.drop_last());
        assert((normalize(a) + normalize(b.drop_last())).push(fold_case_spec(b.last())) =~= normalize(
            a,
        ) + normalize(b.drop_last()).push(fold_case_spec(b.last())));
    }
}

proof fn lemma_normalize_space(s: Seq<char>)
    requires
        all_space(s),
    ensures
        normalize(s) == Seq::<char>::empty(),
    decreases s.len(),
{
    if s.len() > 0 {
        assert(is_space_spec(s[s.len() - 1]));
        assert(all_space(s.drop_last())) by {
            assert forall|i: int| 0 <= i < s.drop_last().len() implies is_space_spec(
                #[trigger] s.drop_last()[i],
            ) by {
                assert(s.drop_last()[i] == s[i]);
            }
        }
        lemma_normalize_space(s.drop_last());
    }
}

/// `r` between any white space yields exactly one rest.
pub proof fn lemma_rest_in_space(a: Seq<char>, b: Seq<char>)
    requires
        all_space(a),
        all_space(b),
    ensures
        notes_of_text(a + seq!['r'] + b) == Ok::<Seq<int>, SoundError>(seq![-1int]),
{
    lemma_normalize_concat(a + seq!['r'], b);
    lemma_normalize_concat(a, seq!['r']);
    lemma_normalize_space(a);
    lemma_normalize_space(b);
    assert(seq!['r'].drop_last() =~= Seq::<char>::empty());
    assert(normalize(Seq::<char>::empty()) == Seq::<char>::empty());
    assert(!is_space_spec('r'));
    assert(normalize(seq!['r']) =~= Seq::<char>::empty().push('r'));
    assert(normalize(seq!['r']) =~= seq!['r']);
    let s = normalize(a + seq!['r'] + b);
    assert(s =~= seq!['r']);
    assert(s.skip(1) =~= Seq::<char>::empty());
    assert(parse_notes_spec(Seq::<char>::empty()) == Ok::<Seq<int>, SoundError>(Seq::empty()));
    assert(note_token(s) == Ok::<(int, nat), SoundError>((-1, 1)));
    assert(seq![-1int] + Seq::<int>::empty() =~= seq![-1int]);
}

proof fn lemma_normalize_twice(s: Seq<char>)
    ensures
        normalize(normalize(s)) == normalize(s),
    decreases s.len(),
{
    if s.len() > 0 {
        lemma_normalize_twice(s.drop_last());
        let r = normalize(s.drop_last());
        if !is_space_spec(s.last()) {
            let c = fold_case_spec(s.last());
            assert(r.push(c).drop_last() =~= r);
            assert(!is_space_spec(c));
            assert(fold_case_spec(c) == c);
        }
    }
}

/// White space and the case of letters make no difference: text and its
/// normalized form set the same notes, tones, volumes and effects.
pub proof fn lemma_normalized_text_same(text: Seq<char>)
    ensures
        notes_of_text(normalize(text)) == notes_of_text(text),
        tones_of_text(normalize(text)) == tones_of_text(text),
        volumes_of_text(normalize(text)) == volumes_of_text(text),
        effects_of_text(normalize(text)) == effects_of_text(text),
{
    lemma_normalize_twice(text);
}

/// A cleared sound is not modified, whatever its speed was before.
pub proof fn lemma_cleared_not_modified(s: &Sound)
    requires
        s.is_cleared(),
    ensures
        !s.is_modified_spec(),
{
}

/// Whether a sound is modified depends on its sequences alone, not on its
/// speed.
pub proof fn lemma_modified_ignores_speed(a: &Sound, b: &Sound)
    requires
        a.notes@ == b.notes@,
        a.tones@ == b.tones@,
        a.volumes@ == b.volumes@,
        a.effects@ == b.effects@,
    ensures
        a.is_modified_spec() == b.is_modified_spec(),
{
}

} // verus!
