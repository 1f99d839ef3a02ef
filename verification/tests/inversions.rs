use chord_fingerings::chord::Chord;
use chord_fingerings::finger::{get_played_notes, Finger, Fingering, DEFAULT_TUNING};
use chord_fingerings::inversion::{gen_inversions, sounds_chord};
use chord_fingerings::pitch::Note;
use std::collections::BTreeSet;

fn fingering(frets: [i8; 6]) -> Fingering {
    frets.map(|x| if x < 0 { Finger(None) } else { Finger(Some(x as u8)) })
}

fn frets(f: &Fingering) -> [i8; 6] {
    f.map(|x| x.to_i8())
}

#[test]
fn c_major_inversions_sound_exactly_c_e_g() {
    let wanted: BTreeSet<Note> = [Note::C, Note::E, Note::G].into_iter().collect();
    let found = gen_inversions(Note::C, Chord::Major, DEFAULT_TUNING);
    assert!(!found.is_empty());
    for f in &found {
        let sounded: BTreeSet<Note> =
            get_played_notes(DEFAULT_TUNING, *f).into_iter().flatten().collect();
        assert_eq!(sounded, wanted);
    }
}

#[test]
fn c_major_inversions_are_complete_and_in_enumeration_order() {
    let found = gen_inversions(Note::C, Chord::Major, DEFAULT_TUNING);
    assert_eq!(found.len(), 1135);
    assert_eq!(frets(&found[0]), [-1, -1, -1, 0, 1, 0]);
    assert_eq!(frets(&found[1]), [-1, -1, -1, 0, 5, 8]);
    assert_eq!(frets(&found[2]), [-1, -1, -1, 5, 5, 3]);
    assert_eq!(frets(&found[1134]), [8, 7, 5, 9, 8, 8]);
    let numbers: Vec<[i8; 6]> = found.iter().map(frets).collect();
    let mut sorted = numbers.clone();
    sorted.sort();
    sorted.dedup();
    assert_eq!(numbers, sorted);
    assert!(numbers.contains(&[-1, 3, 2, 0, 1, 0]));
    assert!(numbers.contains(&[0, 3, 2, 0, 1, 0]));
    assert!(!numbers.contains(&[-1, -1, -1, -1, -1, -1]));
}

#[test]
fn inversions_agree_with_the_membership_test_on_every_candidate_kept() {
    let tones = Chord::Minor.notes(Note::A);
    let found = gen_inversions(Note::A, Chord::Minor, DEFAULT_TUNING);
    assert_eq!(found.len(), 1135);
    for f in &found {
        assert!(sounds_chord(&tones, DEFAULT_TUNING, *f));
    }
}

#[test]
fn inversion_counts_of_other_chords() {
    assert_eq!(gen_inversions(Note::G, Chord::Major, DEFAULT_TUNING).len(), 813);
    assert_eq!(gen_inversions(Note::E, Chord::MinorSeventh, DEFAULT_TUNING).len(), 1558);
    assert_eq!(gen_inversions(Note::D, Chord::MajorNinth, DEFAULT_TUNING).len(), 915);
}

#[test]
fn a_fingering_with_an_extraneous_pitch_is_no_inversion() {
    let tones = Chord::Major.notes(Note::C);
    // The open first string sounds E, fret 1 on it sounds F.
    assert!(sounds_chord(&tones, DEFAULT_TUNING, fingering([-1, 3, 2, 0, 1, 0])));
    assert!(!sounds_chord(&tones, DEFAULT_TUNING, fingering([-1, 3, 2, 0, 1, 1])));
    assert!(!sounds_chord(&tones, DEFAULT_TUNING, fingering([0, 0, 0, 0, 0, 0])));
}

#[test]
fn a_fingering_that_misses_a_chord_tone_is_no_inversion() {
    let tones = Chord::Major.notes(Note::C);
    // C and E alone: the G is missing.
    assert!(!sounds_chord(&tones, DEFAULT_TUNING, fingering([-1, 3, 2, -1, 1, 0])));
    // Nothing sounds at all.
    assert!(!sounds_chord(&tones, DEFAULT_TUNING, fingering([-1; 6])));
    // One string for each tone is enough.
    assert!(sounds_chord(&tones, DEFAULT_TUNING, fingering([-1, -1, -1, 0, 1, 0])));
}

#[test]
fn a_pitch_class_may_sound_on_several_strings() {
    let tones = Chord::Major.notes(Note::C);
    assert!(sounds_chord(&tones, DEFAULT_TUNING, fingering([8, 7, 5, 5, 8, 8])));
}

#[test]
fn a_ninth_chord_is_recognised_by_its_folded_tones() {
    let tones = Chord::AddNinth.notes(Note::C);
    assert_eq!(tones, vec![Note::C, Note::E, Note::G, Note::D]);
    assert!(sounds_chord(&tones, DEFAULT_TUNING, fingering([-1, 3, 2, 0, 3, 0])));
    assert!(!sounds_chord(&tones, DEFAULT_TUNING, fingering([-1, 3, 2, 0, 1, 0])));
}

#[test]
fn inversions_follow_a_substituted_tuning() {
    let all_c = [Note::C; 6];
    let found = gen_inversions(Note::C, Chord::Major, all_c);
    // On each string only frets 0, 4 and 7 sound a chord tone.
    for f in &found {
        for x in frets(f) {
            assert!(x == -1 || x == 0 || x == 4 || x == 7);
        }
    }
    // All ways to give six strings one of three tones or none, with each
    // tone used at least once: 4^6 - 3 * 3^6 + 3 * 2^6 - 1.
    assert_eq!(found.len(), 4096 - 3 * 729 + 3 * 64 - 1);
}
