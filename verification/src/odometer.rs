//! The space of all fingerings and the order in which it is walked.
//!
//! Fingerings are counted like the readings of an odometer with six wheels:
//! the last string turns fastest, each wheel runs muted, open, fret 1 up to
//! fret 9, and a wheel that passes fret 9 falls back to muted and turns the
//! wheel to its left by one step.

use vstd::prelude::*;
use crate::finger::{valid_fingering, Finger, Fingering, MAX_FRETS};

verus! {

/// The number of fingerings: eleven positions on each of six strings.
pub const FINGERING_COUNT: u32 = 1771561;

impl Finger {
    /// The place of a position on its wheel: muted is 0, open is 1, fret
    /// `n` is `n + 1`.
    pub open spec fn digit(self) -> int {
        match self.0 {
            None => 0,
            Some(fret) => fret + 1,
        }
    }

    /// The position that stands at place `d` of the wheel.
    pub open spec fn of_digit(d: int) -> Finger {
        if d == 0 {
            Finger(None)
        } else {
            Finger(Some((d - 1) as u8))
        }
    }
}

/// The index of a fingering in enumeration order: its six wheel places read
/// as a number in base eleven, first string most significant.
#[verifier::opaque]
pub open spec fn rank(f: Fingering) -> int {
    ((((f[0].digit() * 11 + f[1].digit()) * 11 + f[2].digit()) * 11 + f[3].digit()) * 11
        + f[4].digit()) * 11 + f[5].digit()
}

/// The fingering that stands at index `k` of the enumeration.
#[verifier::opaque]
pub open spec fn unrank(k: int) -> Fingering {
    [
        Finger::of_digit((k / 161051) % 11),
        Finger::of_digit((k / 14641) % 11),
        Finger::of_digit((k / 1331) % 11),
        Finger::of_digit((k / 121) % 11),
        Finger::of_digit((k / 11) % 11),
        Finger::of_digit(k % 11),
    ]
}

/// Every fingering, in enumeration order, starting with all strings muted.
pub open spec fn all_fingerings() -> Seq<Fingering> {
    Seq::new(FINGERING_COUNT as nat, |k: int| unrank(k))
}

/// The fingering that follows `f`; after the last one the enumeration is
/// back at all strings muted.
pub open spec fn successor(f: Fingering) -> Fingering {
    unrank((rank(f) + 1) % (FINGERING_COUNT as int))
}

/// A valid fingering has an index below `FINGERING_COUNT`, and the
/// enumeration holds that very fingering at that index.
pub proof fn lemma_unrank_rank(f: Fingering)
    requires
        valid_fingering(f),
    ensures
        0 <= rank(f) < FINGERING_COUNT,
        unrank(rank(f)) == f,
        all_fingerings()[rank(f)] == f,
{
    reveal(rank);
    reveal(unrank);
    let d0 = f[0].digit();
    let d1 = f[1].digit();
    let d2 = f[2].digit();
    let d3 = f[3].digit();
    let d4 = f[4].digit();
    let d5 = f[5].digit();
    assert(0 <= d0 <= 10 && 0 <= d1 <= 10 && 0 <= d2 <= 10);
    assert(0 <= d3 <= 10 && 0 <= d4 <= 10 && 0 <= d5 <= 10);
    let k = rank(f);
    assert(k == d0 * 161051 + d1 * 14641 + d2 * 1331 + d3 * 121 + d4 * 11 + d5);
    assert(k % 11 == d5 && k / 11 == d0 * 14641 + d1 * 1331 + d2 * 121 + d3 * 11 + d4);
    assert((k / 11) % 11 == d4 && k / 121 == d0 * 1331 + d1 * 121 + d2 * 11 + d3);
    assert((k / 121) % 11 == d3 && k / 1331 == d0 * 121 + d1 * 11 + d2);
    assert((k / 1331) % 11 == d2 && k / 14641 == d0 * 11 + d1);
    assert((k / 14641) % 11 == d1 && k / 161051 == d0);
    assert((k / 161051) % 11 == d0);
    assert forall|i: int| 0 <= i < 6 implies Finger::of_digit(#[trigger] f[i].digit()) == f[i] by {
        assert(f[i].valid());
    }
    assert(unrank(k) =~= f);
}

/// Every index below `FINGERING_COUNT` holds a valid fingering, and that
/// fingering has this index: no fingering is enumerated twice.
pub proof fn lemma_rank_unrank(k: int)
    requires
        0 <= k < FINGERING_COUNT,
    ensures
        valid_fingering(unrank(k)),
        rank(unrank(k)) == k,
{
    reveal(rank);
    reveal(unrank);
    let f = unrank(k);
    assert(f[0] == Finger::of_digit((k / 161051) % 11));
    assert(f[1] == Finger::of_digit((k / 14641) % 11));
    assert(f[2] == Finger::of_digit((k / 1331) % 11));
    assert(f[3] == Finger::of_digit((k / 121) % 11));
    assert(f[4] == Finger::of_digit((k / 11) % 11));
    assert(f[5] == Finger::of_digit(k % 11));
    assert(k / 121 == (k / 11) / 11);
    assert(k / 1331 == (k / 121) / 11);
    assert(k / 14641 == (k / 1331) / 11);
    assert(k / 161051 == (k / 14641) / 11);
}

/// The enumeration holds exactly the valid fingerings, each of them once.
pub proof fn lemma_enumeration_complete()
    ensures
        all_fingerings().len() == 11 * 11 * 11 * 11 * 11 * 11,
        forall|f: Fingering| valid_fingering(f) <==> all_fingerings().contains(f),
        all_fingerings().no_duplicates(),
{
    assert forall|f: Fingering| valid_fingering(f) implies all_fingerings().contains(f) by {
        lemma_unrank_rank(f);
    }
    assert forall|f: Fingering| all_fingerings().contains(f) implies valid_fingering(f) by {
        let k = choose|k: int| 0 <= k < all_fingerings().len() && all_fingerings()[k] == f;
        lemma_rank_unrank(k);
    }
    assert forall|i: int, j: int|
        0 <= i < all_fingerings().len() && 0 <= j < all_fingerings().len() && i != j implies
        all_fingerings()[i] != all_fingerings()[j] by {
        lemma_rank_unrank(i);
        lemma_rank_unrank(j);
    }
}

/// The enumeration starts with all strings muted.
pub proof fn lemma_rank_all_muted(f: Fingering)
    requires
        forall|j: int| 0 <= j < 6 ==> f[j] == Finger(None),
    ensures
        valid_fingering(f),
        rank(f) == 0,
        all_fingerings()[0] == f,
{
    reveal(rank);
    assert(forall|j: int| 0 <= j < 6 ==> f[j].digit() == 0);
    assert(rank(f) == 0);
    lemma_unrank_rank(f);
}

/// One step of the odometer: where `b` agrees with `a` left of string `i`,
/// stands one place further on string `i`, and has fallen from fret 9 to
/// muted on every string right of `i`, `b` is the fingering after `a`.
pub proof fn lemma_rank_step(a: Fingering, b: Fingering, i: int)
    requires
        valid_fingering(a),
        0 <= i < 6,
        forall|j: int| 0 <= j < i ==> b[j] == a[j],
        a[i].digit() < 10,
        b[i] == Finger::of_digit(a[i].digit() + 1),
        forall|j: int| i < j < 6 ==> a[j] == Finger(Some(MAX_FRETS)) && b[j] == Finger(None),
    ensures
        valid_fingering(b),
        rank(b) == rank(a) + 1,
        0 <= rank(a),
        rank(b) < FINGERING_COUNT,
        b == successor(a),
{
    reveal(rank);
    lemma_unrank_rank(a);
    assert(a[i].valid());
    assert(b[i].digit() == a[i].digit() + 1);
    assert forall|j: int| 0 <= j < 6 implies (#[trigger] b[j]).valid() by {
        assert(a[j].valid());
    }
    assert(forall|j: int| 0 <= j < i ==> b[j].digit() == a[j].digit());
    assert(forall|j: int| i < j < 6 ==> a[j].digit() == 10 && b[j].digit() == 0);
    if i == 0 {
        assert(rank(b) == rank(a) + 1);
    } else if i == 1 {
        assert(rank(b) == rank(a) + 1);
    } else if i == 2 {
        assert(rank(b) == rank(a) + 1);
    } else if i == 3 {
        assert(rank(b) == rank(a) + 1);
    } else if i == 4 {
        assert(rank(b) == rank(a) + 1);
    } else {
        assert(rank(b) == rank(a) + 1);
    }
    lemma_unrank_rank(b);
}

/// The end of the enumeration: the fingering with every string at fret 9
/// is the last one, and the one after it is all muted.
pub proof fn lemma_rank_wrap(a: Fingering, b: Fingering)
    requires
        forall|j: int| 0 <= j < 6 ==> a[j] == Finger(Some(MAX_FRETS)) && b[j] == Finger(None),
    ensures
        valid_fingering(b),
        rank(a) == FINGERING_COUNT - 1,
        rank(b) == 0,
        b == successor(a),
{
    reveal(rank);
    assert(forall|j: int| 0 <= j < 6 ==> a[j].digit() == 10 && b[j].digit() == 0);
    assert(rank(a) == FINGERING_COUNT - 1);
    assert(rank(b) == 0);
    lemma_unrank_rank(b);
}

/// Advances `fingering` to the next one in enumeration order and tells
/// whether there was one. After the last fingering, with every string at
/// fret 9, the result is `false` and `fingering` is all muted again.
pub fn next_fingering(fingering: &mut Fingering) -> (more: bool)
    requires
        valid_fingering(*old(fingering)),
    ensures
        valid_fingering(*final(fingering)),
        more <==> rank(*old(fingering)) + 1 < FINGERING_COUNT,
        rank(*final(fingering)) == (rank(*old(fingering)) + 1) % (FINGERING_COUNT as int),
        *final(fingering) == successor(*old(fingering)),
{
    let mut i: usize = 6;
    while i > 0
        invariant
            i <= 6,
            valid_fingering(*old(fingering)),
            forall|j: int| 0 <= j < i ==> fingering[j] == old(fingering)[j],
            forall|j: int|
                i <= j < 6 ==> old(fingering)[j] == Finger(Some(MAX_FRETS)) && fingering[j]
                    == Finger(None),
        decreases i,
    {
        i -= 1;
        match fingering[i].0 {
            None => {
                fingering[i] = Finger(Some(0));
                proof {
                    lemma_rank_step(*old(fingering), *fingering, i as int);
                }
                return true;
            },
            Some(fret) => {
                if fret == MAX_FRETS {
                    fingering[i] = Finger(None);
                } else {
                    assert(old(fingering)[i as int].valid());
                    fingering[i] = Finger(Some(fret + 1));
                    proof {
                        lemma_rank_step(*old(fingering), *fingering, i as int);
                    }
                    return true;
                }
            },
        }
    }
    proof {
        lemma_rank_wrap(*old(fingering), *fingering);
    }
    false
}

} // verus!
