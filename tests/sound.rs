use pyxel_sound::{
    Sound, SoundError, Tone, EFFECT_FADEOUT, EFFECT_NONE, EFFECT_SLIDE, EFFECT_VIBRATO,
    INITIAL_SPEED,
};

#[test]
fn new() {
    let sound = Sound::new();
    assert_eq!(sound.notes.len(), 0);
    assert_eq!(sound.tones.len(), 0);
    assert_eq!(sound.volumes.len(), 0);
    assert_eq!(sound.effects.len(), 0);
    assert_eq!(sound.speed, INITIAL_SPEED);
}

#[test]
fn set() {
    let mut sound = Sound::new();
    sound
        .set("c0d-0d0d#0e0f0", "tspniw", "012345", "nsvf", 123)
        .unwrap();
    assert_eq!(&sound.notes, &vec![0, 1, 2, 3, 4, 5]);
    assert_eq!(
        &sound.tones,
        &vec![
            Tone::Triangle,
            Tone::Square,
            Tone::Pulse,
            Tone::Noise,
            Tone::Sine,
            Tone::Saw
        ]
    );
    assert_eq!(&sound.volumes, &vec![0, 1, 2, 3, 4, 5]);
    assert_eq!(
        &sound.effects,
        &vec![EFFECT_NONE, EFFECT_SLIDE, EFFECT_VIBRATO, EFFECT_FADEOUT]
    );
    assert_eq!(sound.speed, 123);
}

#[test]
fn set_note() {
    let mut sound = Sound::new();
    sound
        .set_notes(" c 0 d # 1 r e 2 f 3 g 4 r a - 0 b 1 ")
        .unwrap();
    assert_eq!(&sound.notes, &vec![0, 15, -1, 28, 41, 55, -1, 8, 23]);
}

#[test]
fn set_tone() {
    let mut sound = Sound::new();
    sound.set_tones(" t s p n i w ").unwrap();
    assert_eq!(
        &sound.tones,
        &vec![
            Tone::Triangle,
            Tone::Square,
            Tone::Pulse,
            Tone::Noise,
            Tone::Sine,
            Tone::Saw
        ]
    );
}

#[test]
fn set_volume() {
    let mut sound = Sound::new();
    sound.set_volumes(" 0 1 2 3 4 5 6 7 ").unwrap();
    assert_eq!(&sound.volumes, &vec![0, 1, 2, 3, 4, 5, 6, 7]);
}

#[test]
fn set_effect() {
    let mut sound = Sound::new();
    sound.set_effects(" n s v f ").unwrap();
    assert_eq!(
        &sound.effects,
        &vec![EFFECT_NONE, EFFECT_SLIDE, EFFECT_VIBRATO, EFFECT_FADEOUT]
    );
}

#[test]
fn set_tones_compact() {
    let mut sound = Sound::new();
    sound.set_tones("tspniw").unwrap();
    assert_eq!(
        sound.tones,
        vec![
            Tone::Triangle,
            Tone::Square,
            Tone::Pulse,
            Tone::Noise,
            Tone::Sine,
            Tone::Saw
        ]
    );
}

#[test]
fn set_volumes_compact() {
    let mut sound = Sound::new();
    sound.set_volumes("01234567").unwrap();
    assert_eq!(sound.volumes, vec![0, 1, 2, 3, 4, 5, 6, 7]);
}

#[test]
fn set_effects_compact() {
    let mut sound = Sound::new();
    sound.set_effects("nsvf").unwrap();
    assert_eq!(
        sound.effects,
        vec![EFFECT_NONE, EFFECT_SLIDE, EFFECT_VIBRATO, EFFECT_FADEOUT]
    );
}

#[test]
fn case_and_space_do_not_matter() {
    let mut a = Sound::new();
    let mut b = Sound::new();
    a.set_notes(" C 0 ").unwrap();
    b.set_notes("c0").unwrap();
    assert_eq!(a.notes, b.notes);
    assert_eq!(a.notes, vec![0]);
    let mut c = Sound::new();
    c.set_tones(" T S\tP ").unwrap();
    assert_eq!(c.tones, vec![Tone::Triangle, Tone::Square, Tone::Pulse]);
}

#[test]
fn rest_in_space() {
    let mut sound = Sound::new();
    sound.set_notes("  r \n").unwrap();
    assert_eq!(sound.notes, vec![-1]);
    sound.set_notes("R").unwrap();
    assert_eq!(sound.notes, vec![-1]);
}

#[test]
fn note_edges() {
    let mut sound = Sound::new();
    sound.set_notes("c-0 b4 b#4").unwrap();
    assert_eq!(sound.notes, vec![-1, 59, 60]);
}

#[test]
fn invalid_note_errors() {
    let mut sound = Sound::new();
    sound.set_notes("c1").unwrap();
    assert_eq!(sound.set_notes("x0"), Err(SoundError::InvalidNote('x')));
    assert_eq!(sound.set_notes("c5"), Err(SoundError::InvalidNote('5')));
    assert_eq!(sound.set_notes("c#"), Err(SoundError::InvalidNote('\0')));
    assert_eq!(sound.set_notes("c"), Err(SoundError::InvalidNote('\0')));
    assert_eq!(sound.set_notes("c#-0"), Err(SoundError::InvalidNote('-')));
    assert_eq!(sound.notes, vec![12]);
}

#[test]
fn invalid_symbol_errors() {
    let mut sound = Sound::new();
    assert_eq!(sound.set_tones("tx"), Err(SoundError::InvalidTone('x')));
    assert_eq!(sound.set_volumes("08"), Err(SoundError::InvalidVolume('8')));
    assert_eq!(sound.set_effects("nq"), Err(SoundError::InvalidEffect('q')));
    assert!(!sound.is_modified());
}

#[test]
fn set_fails_without_change() {
    let mut sound = Sound::new();
    sound.set("c0", "t", "7", "f", 10).unwrap();
    assert_eq!(
        sound.set("d0", "s", "9", "x", 99),
        Err(SoundError::InvalidVolume('9'))
    );
    assert_eq!(sound.notes, vec![0]);
    assert_eq!(sound.tones, vec![Tone::Triangle]);
    assert_eq!(sound.volumes, vec![7]);
    assert_eq!(sound.effects, vec![EFFECT_FADEOUT]);
    assert_eq!(sound.speed, 10);
}

#[test]
fn serialize_example() {
    let mut sound = Sound::new();
    sound.notes = vec![0, -1];
    sound.tones = vec![Tone::Triangle];
    sound.speed = 30;
    assert_eq!(sound.serialize(), "00ff\n0\nnone\nnone\n30");
}

#[test]
fn serialize_empty() {
    let sound = Sound::new();
    assert_eq!(sound.serialize(), "none\nnone\nnone\nnone\n30");
}

#[test]
fn serialize_full() {
    let mut sound = Sound::new();
    sound.set("c0 b4 r a#3", "ws", "70", "fv", 1234).unwrap();
    assert_eq!(sound.serialize(), "003bff2e\n51\n70\n32\n1234");
}

#[test]
fn deserialize_example() {
    let mut sound = Sound::new();
    sound.set("c0", "s", "1", "n", 5).unwrap();
    sound.deserialize(1, "none\n0\n7\n3\n30").unwrap();
    assert!(sound.notes.is_empty());
    assert_eq!(sound.tones, vec![Tone::Triangle]);
    assert_eq!(sound.volumes, vec![7]);
    assert_eq!(sound.effects, vec![EFFECT_FADEOUT]);
    assert_eq!(sound.speed, 30);
}

#[test]
fn round_trip() {
    let mut sound = Sound::new();
    sound
        .set("c0 d#1 r e2 b4 a-0", "tspniw", "01234567", "nsvf", 77)
        .unwrap();
    let text = sound.serialize();
    let mut back = Sound::new();
    back.deserialize(1, &text).unwrap();
    assert_eq!(back.notes, sound.notes);
    assert_eq!(back.tones, sound.tones);
    assert_eq!(back.volumes, sound.volumes);
    assert_eq!(back.effects, sound.effects);
    assert_eq!(back.speed, sound.speed);

    let mut partial = Sound::new();
    partial.set("", "ss", "", "v", 1).unwrap();
    let mut back = Sound::new();
    back.deserialize(1, &partial.serialize()).unwrap();
    assert!(back.notes.is_empty());
    assert_eq!(back.tones, vec![Tone::Square, Tone::Square]);
    assert!(back.volumes.is_empty());
    assert_eq!(back.effects, vec![EFFECT_VIBRATO]);
    assert_eq!(back.speed, 1);
}

#[test]
fn deserialize_errors() {
    let mut sound = Sound::new();
    sound.set("c0", "s", "1", "n", 5).unwrap();
    let before = sound.serialize();
    assert_eq!(sound.deserialize(1, "none\nnone\nnone\nnone"), Err(SoundError::CorruptData));
    assert_eq!(
        sound.deserialize(1, "none\nnone\nnone\nnone\n30\nx"),
        Err(SoundError::CorruptData)
    );
    assert_eq!(
        sound.deserialize(1, "none\nnone\nnone\nnone\n30\n\n"),
        Err(SoundError::CorruptData)
    );
    assert_eq!(sound.deserialize(1, "0\nnone\nnone\nnone\n30"), Err(SoundError::CorruptData));
    assert_eq!(sound.deserialize(1, "0g\nnone\nnone\nnone\n30"), Err(SoundError::CorruptData));
    assert_eq!(sound.deserialize(1, "none\n6\nnone\nnone\n30"), Err(SoundError::CorruptData));
    assert_eq!(sound.deserialize(1, "none\nnone\nnone\n4\n30"), Err(SoundError::CorruptData));
    assert_eq!(sound.deserialize(1, "none\nnone\nnone\nnone\nx"), Err(SoundError::InvalidFormat));
    assert_eq!(
        sound.deserialize(1, "none\nnone\nnone\nnone\n4294967296"),
        Err(SoundError::InvalidFormat)
    );
    assert_eq!(sound.deserialize(1, "none\nnone\nnone\nnone\n"), Err(SoundError::CorruptData));
    assert_eq!(sound.deserialize(1, "none\nnone\nnone\nnone\n\n"), Err(SoundError::InvalidFormat));
    assert_eq!(sound.deserialize(1, ""), Err(SoundError::CorruptData));
    assert_eq!(sound.serialize(), before);
}

#[test]
fn deserialize_lenient_values() {
    let mut sound = Sound::new();
    sound.deserialize(1, "80fe\nnone\nf\nnone\n+4294967295").unwrap();
    assert_eq!(sound.notes, vec![-128, -2]);
    assert_eq!(sound.volumes, vec![15]);
    assert_eq!(sound.speed, 4294967295);
}

#[test]
fn clear_and_modified() {
    let mut sound = Sound::new();
    assert!(!sound.is_modified());
    sound.speed = 99;
    assert!(!sound.is_modified());
    sound.set_volumes("3").unwrap();
    assert!(sound.is_modified());
    sound.set("c0", "t", "1", "n", 7).unwrap();
    sound.clear();
    assert!(sound.notes.is_empty() && sound.tones.is_empty());
    assert!(sound.volumes.is_empty() && sound.effects.is_empty());
    assert_eq!(sound.speed, INITIAL_SPEED);
    assert!(!sound.is_modified());
}

#[test]
fn resource_names() {
    assert_eq!(Sound::resource_name(0), "pyxel_resource/sound00");
    assert_eq!(Sound::resource_name(7), "pyxel_resource/sound07");
    assert_eq!(Sound::resource_name(42), "pyxel_resource/sound42");
    assert_eq!(Sound::resource_name(123), "pyxel_resource/sound123");
}

#[test]
fn accessors() {
    let mut sound = Sound::new();
    sound.set("c0 d0", "tw", "05", "nf", 30).unwrap();
    assert_eq!(sound.note_count(), 2);
    assert_eq!(sound.note_at(1), Ok(2));
    assert_eq!(sound.note_at(2), Err(SoundError::IndexOutOfRange));
    assert_eq!(sound.note_at(-1), Err(SoundError::IndexOutOfRange));
    sound.set_note_at(0, 12).unwrap();
    assert_eq!(sound.notes_to_list(), vec![12, 2]);
    assert_eq!(sound.set_note_at(5, 1), Err(SoundError::IndexOutOfRange));
    sound.notes_from_list(vec![-1, 3, 4]).unwrap();
    assert_eq!(sound.notes, vec![-1, 3, 4]);

    assert_eq!(sound.tone_count(), 2);
    assert_eq!(sound.tone_at(1), Ok(5));
    sound.set_tone_at(0, 3).unwrap();
    assert_eq!(sound.tones_to_list(), vec![3, 5]);
    assert_eq!(sound.set_tone_at(0, 6), Err(SoundError::CorruptData));
    assert_eq!(sound.set_tone_at(9, 1), Err(SoundError::IndexOutOfRange));
    assert_eq!(sound.tones_from_list(vec![1, 7]), Err(SoundError::CorruptData));
    assert_eq!(sound.tones, vec![Tone::Noise, Tone::Saw]);
    sound.tones_from_list(vec![4, 2]).unwrap();
    assert_eq!(sound.tones, vec![Tone::Sine, Tone::Pulse]);

    assert_eq!(sound.volume_count(), 2);
    assert_eq!(sound.volume_at(1), Ok(5));
    sound.set_volume_at(1, 6).unwrap();
    assert_eq!(sound.volumes_to_list(), vec![0, 6]);
    sound.volumes_from_list(vec![1]).unwrap();
    assert_eq!(sound.volume_at(1), Err(SoundError::IndexOutOfRange));

    assert_eq!(sound.effect_count(), 2);
    assert_eq!(sound.effect_at(1), Ok(EFFECT_FADEOUT));
    sound.set_effect_at(0, EFFECT_SLIDE).unwrap();
    assert_eq!(sound.effects_to_list(), vec![EFFECT_SLIDE, EFFECT_FADEOUT]);
    assert_eq!(sound.set_effect_at(2, EFFECT_NONE), Err(SoundError::IndexOutOfRange));
    sound.effects_from_list(vec![EFFECT_VIBRATO]).unwrap();
    assert_eq!(sound.effects, vec![EFFECT_VIBRATO]);
}

#[test]
fn speed_accessors() {
    let mut sound = Sound::new();
    assert_eq!(sound.get_speed(), INITIAL_SPEED);
    sound.set_notes("c0").unwrap();
    sound.set_speed(120);
    assert_eq!(sound.get_speed(), 120);
    assert_eq!(sound.notes, vec![0]);
}

#[test]
fn deserialize_line_endings() {
    let mut sound = Sound::new();
    sound.deserialize(1, "00\n1\n2\n3\n40\n").unwrap();
    assert_eq!(sound.notes, vec![0]);
    assert_eq!(sound.tones, vec![Tone::Square]);
    assert_eq!(sound.volumes, vec![2]);
    assert_eq!(sound.effects, vec![EFFECT_FADEOUT]);
    assert_eq!(sound.speed, 40);
    sound.deserialize(1, "none\r\n5\r\nnone\r\n0\r\n12\r\n").unwrap();
    assert!(sound.notes.is_empty());
    assert_eq!(sound.tones, vec![Tone::Saw]);
    assert!(sound.volumes.is_empty());
    assert_eq!(sound.effects, vec![EFFECT_NONE]);
    assert_eq!(sound.speed, 12);
    assert_eq!(
        sound.deserialize(1, "none\nnone\nnone\nnone\n12\r"),
        Err(SoundError::InvalidFormat)
    );
    sound.deserialize(7, "none\nnone\nnone\nnone\n0").unwrap();
    assert_eq!(sound.speed, 0);
}

#[test]
fn accessors_refuse_out_of_domain_values() {
    let mut sound = Sound::new();
    sound.set("c0 d0", "tw", "05", "nf", 30).unwrap();
    assert_eq!(sound.set_note_at(0, 60), Err(SoundError::CorruptData));
    assert_eq!(sound.set_note_at(0, -2), Err(SoundError::CorruptData));
    assert_eq!(sound.set_note_at(9, 60), Err(SoundError::IndexOutOfRange));
    sound.set_note_at(0, -1).unwrap();
    sound.set_note_at(1, 59).unwrap();
    assert_eq!(sound.notes, vec![-1, 59]);
    assert_eq!(sound.notes_from_list(vec![0, 61]), Err(SoundError::CorruptData));
    assert_eq!(sound.notes, vec![-1, 59]);

    assert_eq!(sound.set_volume_at(0, 8), Err(SoundError::CorruptData));
    assert_eq!(sound.volumes_from_list(vec![7, 8]), Err(SoundError::CorruptData));
    assert_eq!(sound.volumes, vec![0, 5]);

    assert_eq!(sound.set_effect_at(0, 4), Err(SoundError::CorruptData));
    assert_eq!(sound.effects_from_list(vec![4]), Err(SoundError::CorruptData));
    assert_eq!(sound.effects, vec![EFFECT_NONE, EFFECT_FADEOUT]);
}
