use chord_fingerings::chord::{Chord, ALL_CHORDS};
use chord_fingerings::finger::{Fingering, DEFAULT_TUNING};
use chord_fingerings::pitch::{Note, ALL_NOTES};
use chord_fingerings::playability::compactness;
use chord_fingerings::ranking::chord_fingerings;
use chord_fingerings::report::{ChordEntry, Report, RootEntry};

fn frets(f: &Fingering) -> [i8; 6] {
    f.map(|x| x.to_i8())
}

fn report_with(root: Note, chord: Chord, fingerings: Vec<Fingering>) -> Report {
    let mut roots = Vec::new();
    for r in ALL_NOTES {
        let mut chords = Vec::new();
        for c in ALL_CHORDS {
            let list = if r == root && c == chord { fingerings.clone() } else { Vec::new() };
            chords.push(ChordEntry { chord: c, fingerings: list });
        }
        roots.push(RootEntry { root: r, chords });
    }
    Report { roots }
}

#[test]
fn a_report_is_looked_up_by_root_and_quality() {
    let ranked = chord_fingerings(Note::A, Chord::Minor, DEFAULT_TUNING);
    let report = report_with(Note::A, Chord::Minor, ranked.clone());
    let held = report.fingerings(Note::A, Chord::Minor);
    assert_eq!(held.len(), 34);
    assert_eq!(frets(&held[0]), [0, 0, 2, 2, 1, 0]);
    assert_eq!(held, &ranked);
    assert!(report.fingerings(Note::A, Chord::Major).is_empty());
    assert!(report.fingerings(Note::ASharp, Chord::Minor).is_empty());
    assert!(report.fingerings(Note::C, Chord::AddSixthAddNinth).is_empty());
}

#[test]
fn every_root_and_quality_has_its_own_place() {
    for root in ALL_NOTES {
        for chord in ALL_CHORDS {
            let marker = vec![[chord_fingerings::finger::Finger(Some(root.to_u8() % 10)); 6]];
            let report = report_with(root, chord, marker.clone());
            for r in ALL_NOTES {
                for c in ALL_CHORDS {
                    let held = report.fingerings(r, c);
                    if r == root && c == chord {
                        assert_eq!(held, &marker);
                    } else {
                        assert!(held.is_empty());
                    }
                }
            }
        }
    }
}

#[test]
fn entries_of_one_root_list_every_quality_in_order() {
    let entry = chord_fingerings::report::root_entry(Note::C, DEFAULT_TUNING);
    assert_eq!(entry.root, Note::C);
    assert_eq!(entry.chords.len(), 18);
    for (i, chord_entry) in entry.chords.iter().enumerate() {
        assert_eq!(chord_entry.chord, ALL_CHORDS[i]);
    }
    assert_eq!(entry.chords[0].fingerings, chord_fingerings(Note::C, Chord::Major, DEFAULT_TUNING));
    assert_eq!(entry.chords[0].fingerings.len(), 33);
    assert_eq!(frets(&entry.chords[0].fingerings[0]), [0, 3, 2, 0, 1, 0]);
    assert_eq!(
        entry.chords[17].fingerings,
        chord_fingerings(Note::C, Chord::AddSixthAddNinth, DEFAULT_TUNING)
    );
}

#[test]
fn the_whole_report_in_standard_tuning() {
    let report = chord_fingerings::report::build_report(DEFAULT_TUNING);
    assert_eq!(report.roots.len(), 12);
    for (r, root_entry) in report.roots.iter().enumerate() {
        assert_eq!(root_entry.root, ALL_NOTES[r]);
        assert_eq!(root_entry.chords.len(), 18);
        for (c, chord_entry) in root_entry.chords.iter().enumerate() {
            assert_eq!(chord_entry.chord, ALL_CHORDS[c]);
        }
    }
    let c_major = report.fingerings(Note::C, Chord::Major);
    assert_eq!(c_major.len(), 33);
    assert_eq!(frets(&c_major[0]), [0, 3, 2, 0, 1, 0]);
    assert_eq!(frets(&c_major[3]), [-1, 3, 2, 0, 1, 0]);
    let a_minor = report.fingerings(Note::A, Chord::Minor);
    assert_eq!(a_minor.len(), 34);
    assert_eq!(frets(&a_minor[0]), [0, 0, 2, 2, 1, 0]);
    let e_minor_seventh = report.fingerings(Note::E, Chord::MinorSeventh);
    assert_eq!(e_minor_seventh.len(), 54);
    assert_eq!(frets(&e_minor_seventh[0]), [0, 2, 0, 0, 0, 0]);
    let d_major_ninth = report.fingerings(Note::D, Chord::MajorNinth);
    assert_eq!(d_major_ninth.len(), 21);
    assert_eq!(frets(&d_major_ninth[20]), [9, 7, 7, 7, 7, 9]);

    // How many fingerings each root holds, over all chord qualities.
    let per_root: Vec<usize> = report
        .roots
        .iter()
        .map(|root_entry| root_entry.chords.iter().map(|c| c.fingerings.len()).sum())
        .collect();
    assert_eq!(per_root, vec![750, 744, 681, 679, 739, 719, 707, 731, 724, 722, 750, 751]);

    // A running sum over every fingering, its place, its chord and its root.
    let mut sum: u64 = 0;
    for (r, root_entry) in report.roots.iter().enumerate() {
        for (c, chord_entry) in root_entry.chords.iter().enumerate() {
            for (i, f) in chord_entry.fingerings.iter().enumerate() {
                let mut value: u64 = 0;
                for x in frets(f) {
                    value = value * 11 + (x + 1) as u64;
                }
                sum = (sum * 31 + value + i as u64 + 7 * c as u64 + 13 * r as u64) % 1_000_000_007;
            }
        }
    }
    assert_eq!(sum, 352_609_031);
}

#[test]
fn more_open_strings_and_no_wider_span_rank_ahead_in_standard_tuning() {
    let report = chord_fingerings::report::build_report(DEFAULT_TUNING);
    for root_entry in &report.roots {
        for chord_entry in &root_entry.chords {
            let ranked = &chord_entry.fingerings;
            for (i, a) in ranked.iter().enumerate() {
                for (j, b) in ranked.iter().enumerate() {
                    let opens_a = a.iter().filter(|x| x.0 == Some(0)).count();
                    let opens_b = b.iter().filter(|x| x.0 == Some(0)).count();
                    if opens_a > opens_b && compactness(a) <= compactness(b) {
                        assert!(i < j);
                    }
                }
            }
        }
    }
}
