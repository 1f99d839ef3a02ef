use chord_fingerings::finger::{Finger, Fingering};
use chord_fingerings::playability::{
    at_least_four_strings, compactness, is_compact, is_contiguous, is_playable, UNBOUNDED,
};

fn fingering(frets: [i8; 6]) -> Fingering {
    frets.map(|x| if x < 0 { Finger(None) } else { Finger(Some(x as u8)) })
}

#[test]
fn three_sounded_strings_are_always_too_few() {
    // Compact and contiguous, compact only, contiguous only, neither.
    for frets in [
        [-1, 0, 1, 2, -1, -1],
        [0, -1, 1, -1, 2, -1],
        [-1, -1, -1, 0, 5, 9],
        [0, -1, 9, -1, -1, 4],
        [0, 0, 0, -1, -1, -1],
        [-1, -1, -1, 9, 9, 9],
    ] {
        let f = fingering(frets);
        assert!(!at_least_four_strings(&f));
        assert!(!is_playable(&f));
    }
}

#[test]
fn three_sounded_strings_are_rejected_in_every_arrangement() {
    for a in 0..6 {
        for b in (a + 1)..6 {
            for c in (b + 1)..6 {
                for fret in 0..=9 {
                    let mut frets = [-1i8; 6];
                    frets[a] = fret;
                    frets[b] = fret;
                    frets[c] = fret;
                    let f = fingering(frets);
                    assert!(!at_least_four_strings(&f));
                    assert!(!is_playable(&f));
                }
            }
        }
    }
}

#[test]
fn four_strings_are_enough() {
    assert!(at_least_four_strings(&fingering([-1, 0, 1, 2, 3, -1])));
    assert!(at_least_four_strings(&fingering([0, -1, 1, -1, 2, 9])));
    assert!(at_least_four_strings(&fingering([0, 0, 0, 0, 0, -1])));
    assert!(at_least_four_strings(&fingering([9, 9, 9, 9, 9, 9])));
    assert!(!at_least_four_strings(&fingering([-1; 6])));
    assert!(!at_least_four_strings(&fingering([-1, -1, -1, -1, -1, 0])));
    assert!(!at_least_four_strings(&fingering([-1, 3, -1, -1, 5, -1])));
}

#[test]
fn contiguity_boundary() {
    assert!(is_contiguous(&fingering([-1, -1, 0, 1, -1, -1])));
    assert!(!is_contiguous(&fingering([0, -1, 1, -1, -1, -1])));
}

#[test]
fn muted_strings_may_stand_before_and_after_the_run() {
    assert!(is_contiguous(&fingering([0, 1, 2, 3, 4, 5])));
    assert!(is_contiguous(&fingering([-1, 1, 2, 3, 4, 5])));
    assert!(is_contiguous(&fingering([0, 1, 2, 3, 4, -1])));
    assert!(is_contiguous(&fingering([0, 1, -1, -1, -1, -1])));
    assert!(is_contiguous(&fingering([0, -1, -1, -1, -1, -1])));
    assert!(is_contiguous(&fingering([-1, -1, -1, -1, -1, 0])));
    assert!(is_contiguous(&fingering([-1, -1, -1, 3, -1, -1])));
    assert!(is_contiguous(&fingering([-1, 3, 2, 0, 1, 0])));
}

#[test]
fn no_sounded_string_is_trivially_contiguous() {
    assert!(is_contiguous(&fingering([-1; 6])));
}

#[test]
fn a_muted_string_between_sounded_ones_breaks_the_run() {
    assert!(!is_contiguous(&fingering([0, -1, -1, -1, -1, 0])));
    assert!(!is_contiguous(&fingering([-1, 0, 1, -1, 2, -1])));
    assert!(!is_contiguous(&fingering([3, 3, 3, 3, -1, 3])));
    assert!(!is_contiguous(&fingering([3, -1, 3, 3, 3, 3])));
    assert!(!is_contiguous(&fingering([-1, -1, -1, 0, -1, 0])));
}

#[test]
fn compactness_boundary() {
    let three = fingering([-1, -1, 0, 3, -1, -1]);
    assert_eq!(compactness(&three), 3);
    assert!(is_compact(&three));
    let four = fingering([-1, -1, 0, 4, -1, -1]);
    assert_eq!(compactness(&four), 4);
    assert!(!is_compact(&four));
}

#[test]
fn compactness_is_highest_less_lowest_sounded_fret() {
    assert_eq!(compactness(&fingering([-1, 3, 2, 0, 1, 0])), 3);
    assert_eq!(compactness(&fingering([5, 5, 5, 5, 5, 5])), 0);
    assert_eq!(compactness(&fingering([-1, -1, -1, -1, 7, -1])), 0);
    assert_eq!(compactness(&fingering([0, -1, -1, -1, -1, 9])), 9);
    assert_eq!(compactness(&fingering([9, -1, -1, -1, -1, 0])), 9);
    assert_eq!(compactness(&fingering([8, 7, 5, 5, 8, 8])), 3);
    assert_eq!(compactness(&fingering([2, 9, 4, -1, 6, 3])), 7);
    assert_eq!(compactness(&fingering([0, 0, 0, 0, 0, 0])), 0);
}

#[test]
fn without_a_sounded_string_compactness_is_unbounded() {
    let silent = fingering([-1; 6]);
    assert_eq!(UNBOUNDED, i8::MAX);
    assert_eq!(compactness(&silent), UNBOUNDED);
    assert!(!is_compact(&silent));
    assert!(!is_playable(&silent));
}

#[test]
fn playable_means_all_three_tests_pass() {
    assert!(is_playable(&fingering([-1, 3, 2, 0, 1, 0])));
    assert!(is_playable(&fingering([0, 3, 2, 0, 1, 0])));
    assert!(is_playable(&fingering([8, 7, 5, 5, 8, 8])));
    // Too wide.
    assert!(!is_playable(&fingering([0, 3, 2, 0, 1, 8])));
    // A gap.
    assert!(!is_playable(&fingering([0, 3, -1, 0, 1, 0])));
    // Too few strings.
    assert!(!is_playable(&fingering([-1, -1, -1, 0, 1, 0])));
    for frets in [[0, 3, 2, 0, 1, 8], [0, 3, -1, 0, 1, 0], [-1, 3, 2, 0, 1, 0]] {
        let f = fingering(frets);
        assert_eq!(
            is_playable(&f),
            is_compact(&f) && is_contiguous(&f) && at_least_four_strings(&f)
        );
    }
}

#[test]
fn the_three_tests_may_be_applied_in_any_order() {
    let candidates: Vec<Fingering> = vec![
        fingering([-1, 3, 2, 0, 1, 0]),
        fingering([0, 3, 2, 0, 1, 8]),
        fingering([0, 3, -1, 0, 1, 0]),
        fingering([-1, -1, -1, 0, 1, 0]),
        fingering([8, 7, 5, 5, 8, 8]),
        fingering([0, -1, 5, -1, -1, 0]),
        fingering([-1; 6]),
        fingering([0, 3, 2, 0, 1, 0]),
    ];
    let tests: [fn(&Fingering) -> bool; 3] = [is_compact, is_contiguous, at_least_four_strings];
    let expected: Vec<Fingering> =
        candidates.iter().copied().filter(|f| is_playable(f)).collect();
    assert_eq!(expected.len(), 3);
    for order in [[0, 1, 2], [0, 2, 1], [1, 0, 2], [1, 2, 0], [2, 0, 1], [2, 1, 0]] {
        let mut kept = candidates.clone();
        for i in order {
            kept.retain(|f| tests[i](f));
        }
        assert_eq!(kept, expected);
    }
}
