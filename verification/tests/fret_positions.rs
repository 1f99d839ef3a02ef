use chord_fingerings::finger::{
    get_played_notes, sounded_pitch, Finger, Fingering, DEFAULT_TUNING, MAX_FRETS,
};
use chord_fingerings::pitch::{Note, ALL_NOTES};

fn fingering(frets: [i8; 6]) -> Fingering {
    frets.map(|x| if x < 0 { Finger(None) } else { Finger(Some(x as u8)) })
}

#[test]
fn a_muted_string_has_no_pitch() {
    for open in ALL_NOTES {
        assert_eq!(sounded_pitch(open, Finger(None)), None);
    }
}

#[test]
fn a_sounded_string_is_its_open_pitch_raised_by_the_fret() {
    assert_eq!(sounded_pitch(Note::E, Finger(Some(0))), Some(Note::E));
    assert_eq!(sounded_pitch(Note::A, Finger(Some(3))), Some(Note::C));
    assert_eq!(sounded_pitch(Note::B, Finger(Some(1))), Some(Note::C));
    assert_eq!(sounded_pitch(Note::E, Finger(Some(9))), Some(Note::CSharp));
    for open in ALL_NOTES {
        for fret in 0..=MAX_FRETS {
            assert_eq!(sounded_pitch(open, Finger(Some(fret))), Some(open.add_semitones(fret)));
        }
    }
}

#[test]
fn played_notes_of_the_open_c_major_shape() {
    let notes = get_played_notes(DEFAULT_TUNING, fingering([-1, 3, 2, 0, 1, 0]));
    assert_eq!(
        notes,
        [None, Some(Note::C), Some(Note::E), Some(Note::G), Some(Note::C), Some(Note::E)]
    );
}

#[test]
fn played_notes_of_open_strings_are_the_tuning() {
    let notes = get_played_notes(DEFAULT_TUNING, fingering([0, 0, 0, 0, 0, 0]));
    assert_eq!(
        notes,
        [
            Some(Note::E),
            Some(Note::A),
            Some(Note::D),
            Some(Note::G),
            Some(Note::B),
            Some(Note::E)
        ]
    );
    assert_eq!(get_played_notes(DEFAULT_TUNING, fingering([-1; 6])), [None; 6]);
}

#[test]
fn played_notes_follow_a_substituted_tuning() {
    let drop_d = [Note::D, Note::A, Note::D, Note::G, Note::B, Note::E];
    let notes = get_played_notes(drop_d, fingering([0, 0, 0, 2, 3, 2]));
    assert_eq!(
        notes,
        [
            Some(Note::D),
            Some(Note::A),
            Some(Note::D),
            Some(Note::A),
            Some(Note::D),
            Some(Note::FSharp)
        ]
    );
}

#[test]
fn positions_as_numbers() {
    assert_eq!(Finger(None).to_i8(), -1);
    for fret in 0..=MAX_FRETS {
        assert_eq!(Finger(Some(fret)).to_i8(), fret as i8);
    }
}

#[test]
fn positions_as_tablature_characters() {
    assert_eq!(Finger(None).to_char(), 'x');
    assert_eq!(Finger(Some(0)).to_char(), '0');
    assert_eq!(Finger(Some(3)).to_char(), '3');
    assert_eq!(Finger(Some(9)).to_char(), '9');
    let shape: String = fingering([-1, 3, 2, 0, 1, 0]).iter().map(|f| f.to_char()).collect();
    assert_eq!(shape, "x32010");
}

#[test]
fn default_tuning_is_standard_guitar_tuning() {
    assert_eq!(DEFAULT_TUNING, [Note::E, Note::A, Note::D, Note::G, Note::B, Note::E]);
    assert_eq!(MAX_FRETS, 9);
}
