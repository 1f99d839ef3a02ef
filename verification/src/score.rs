//! The playability score by which fingerings are ranked.

use vstd::prelude::*;
use crate::finger::{valid_fingering, Finger, Fingering};
use crate::playability::{compactness, lemma_sounded_frets, sounded_frets, span};

verus! {

/// The term from which the span of a fingering is taken off.
pub const BASE_POINTS: i32 = 5;

impl Finger {
    /// What one string adds to the score: 15 when open, 10 when muted, and
    /// ten less the fret number when fretted.
    pub open spec fn points(self) -> int {
        match self.0 {
            None => 10,
            Some(fret) => if fret == 0 {
                15
            } else {
                10 - fret
            },
        }
    }

    /// One for an open string, nothing for any other.
    pub open spec fn open_weight(self) -> int {
        if self.0 == Some(0u8) {
            1
        } else {
            0
        }
    }

    /// The fret number of a sounded string, nothing for a muted one.
    pub open spec fn fret_weight(self) -> int {
        match self.0 {
            None => 0,
            Some(fret) => fret as int,
        }
    }
}

/// The points of all six strings together.
pub open spec fn string_points(f: Fingering) -> int {
    f[0].points() + f[1].points() + f[2].points() + f[3].points() + f[4].points() + f[5].points()
}

/// How many strings are played open.
pub open spec fn open_strings(f: Fingering) -> int {
    f[0].open_weight() + f[1].open_weight() + f[2].open_weight() + f[3].open_weight()
        + f[4].open_weight() + f[5].open_weight()
}

/// The sum of the fret numbers of the sounded strings.
pub open spec fn fret_total(f: Fingering) -> int {
    f[0].fret_weight() + f[1].fret_weight() + f[2].fret_weight() + f[3].fret_weight()
        + f[4].fret_weight() + f[5].fret_weight()
}

/// The score of a fingering; higher is better. The span is taken off
/// unclamped, so a wide fingering, or one with no sounded string, loses
/// more than the base term holds.
pub open spec fn score(f: Fingering) -> int {
    BASE_POINTS - span(f) + string_points(f)
}

/// The points of the first `n` strings.
pub open spec fn points_before(f: Fingering, n: int) -> int
    decreases n,
{
    if n <= 0 {
        0
    } else {
        points_before(f, n - 1) + f[n - 1].points()
    }
}

/// The points of all strings are those of the first six.
pub proof fn lemma_points_before_all(f: Fingering)
    ensures
        points_before(f, 6) == string_points(f),
{
    reveal_with_fuel(points_before, 7);
}

/// The score in closed form: every open string is worth five points more
/// than a muted one, and every fret that a finger reaches up costs one.
pub proof fn lemma_score_closed_form(f: Fingering)
    ensures
        score(f) == 65 - span(f) + 5 * open_strings(f) - fret_total(f),
{
    assert forall|i: int| 0 <= i < 6 implies (#[trigger] f[i]).points() == 10 + 5
        * f[i].open_weight() - f[i].fret_weight() by {}
}

/// The range of the score of a valid fingering.
pub proof fn lemma_score_range(f: Fingering)
    requires
        valid_fingering(f),
    ensures
        -62 <= score(f) <= 95,
{
    lemma_sounded_frets(f);
    let frets = sounded_frets(f);
    if frets.len() > 0 {
        frets.max_ensures();
        frets.min_ensures();
        assert(frets.contains(frets.max()));
        assert(frets.contains(frets.min()));
    }
    assert forall|i: int| 0 <= i < 6 implies 1 <= (#[trigger] f[i]).points() <= 15 by {
        assert(f[i].valid());
    }
}

/// With more open strings than `b` and a span no wider, `a` scores
/// strictly higher, as long as what its fingers reach up in frets beyond
/// those of `b` stays below five for each open string gained, plus the
/// frets of span saved.
pub proof fn lemma_more_open_strings_score_higher(a: Fingering, b: Fingering)
    requires
        open_strings(a) > open_strings(b),
        span(a) <= span(b),
        fret_total(a) - fret_total(b) < 5 * (open_strings(a) - open_strings(b)) + (span(b)
            - span(a)),
    ensures
        score(a) > score(b),
{
    lemma_score_closed_form(a);
    lemma_score_closed_form(b);
}

/// The playability score of `fingering`: the base term less the span,
/// plus the points of each string.
pub fn fingering_score(fingering: &Fingering) -> (total: i32)
    requires
        valid_fingering(*fingering),
    ensures
        total == score(*fingering),
{
    let mut sum: i32 = BASE_POINTS - compactness(fingering) as i32;
    let mut i: usize = 0;
    while i < 6
        invariant
            i <= 6,
            valid_fingering(*fingering),
            -122 <= BASE_POINTS - span(*fingering) <= 5,
            sum == BASE_POINTS - span(*fingering) + points_before(*fingering, i as int),
            0 <= points_before(*fingering, i as int) <= 15 * i,
        decreases 6 - i,
    {
        assert(fingering[i as int].valid());
        match fingering[i].0 {
            Some(fret) => {
                if fret == 0 {
                    sum += 15;
                } else {
                    sum += (10 - fret) as i32;
                }
            },
            None => {
                sum += 10;
            },
        }
        i += 1;
    }
    proof {
        lemma_points_before_all(*fingering);
    }
    sum
}

} // verus!
