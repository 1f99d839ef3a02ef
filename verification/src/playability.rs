//! The three tests that decide whether a fingering is practical to play.

use vstd::prelude::*;
use crate::finger::{valid_fingering, Finger, Fingering};
use crate::sequences::lemma_filter_twice;

verus! {

/// The compactness of a fingering on which no string sounds.
pub const UNBOUNDED: i8 = 127;

/// A fingering is compact when its compactness is below this.
pub const COMPACT_BELOW: i8 = 4;

/// The least number of sounded strings of a playable fingering.
pub const MIN_STRINGS: usize = 4;

/// The predicate "this string sounds".
pub open spec fn sounding() -> spec_fn(Finger) -> bool {
    |x: Finger| x.sounded()
}

/// The function that takes a position to its fret number.
pub open spec fn fret_number() -> spec_fn(Finger) -> int {
    |x: Finger| x.number()
}

/// The fret numbers of the sounded strings, in string order. An open
/// string counts as fret 0.
pub open spec fn sounded_frets(f: Fingering) -> Seq<int> {
    f@.filter(sounding()).map_values(fret_number())
}

/// How many strings sound.
pub open spec fn sounded_count(f: Fingering) -> nat {
    f@.filter(sounding()).len()
}

/// The fret span of a fingering: the highest fret among the sounded
/// strings less the lowest, and `UNBOUNDED` when no string sounds.
pub open spec fn span(f: Fingering) -> int {
    let frets = sounded_frets(f);
    if frets.len() == 0 {
        UNBOUNDED as int
    } else {
        frets.max() - frets.min()
    }
}

/// The sounded strings form one unbroken run: no muted string lies
/// between two sounded ones.
pub open spec fn contiguous(f: Fingering) -> bool {
    contiguous_before(f, 6)
}

/// `contiguous`, for the first `n` strings alone.
pub open spec fn contiguous_before(f: Fingering, n: int) -> bool {
    forall|i: int, j: int, k: int|
        0 <= i < j < k < n && (#[trigger] f[i]).sounded() && (#[trigger] f[k]).sounded() ==> (
        #[trigger] f[j]).sounded()
}

/// The strings from `from` up to, not including, `to` sound, and no others.
pub open spec fn one_run(f: Fingering, from: int, to: int) -> bool {
    &&& 0 <= from <= to <= 6
    &&& forall|i: int| 0 <= i < 6 ==> ((#[trigger] f[i]).sounded() <==> from <= i < to)
}

/// A fingering passes all three tests: it spans fewer than four frets,
/// its sounded strings are contiguous, and at least four strings sound.
pub open spec fn playable(f: Fingering) -> bool {
    span(f) < COMPACT_BELOW && contiguous(f) && sounded_count(f) >= MIN_STRINGS
}

/// `playable`, as a predicate on fingerings.
pub open spec fn playable_filter() -> spec_fn(Fingering) -> bool {
    |f: Fingering| playable(f)
}

/// The test for compactness, as a predicate on fingerings.
pub open spec fn compact_filter() -> spec_fn(Fingering) -> bool {
    |f: Fingering| span(f) < COMPACT_BELOW
}

/// The test for contiguity, as a predicate on fingerings.
pub open spec fn contiguous_filter() -> spec_fn(Fingering) -> bool {
    |f: Fingering| contiguous(f)
}

/// The test for enough sounded strings, as a predicate on fingerings.
pub open spec fn enough_strings_filter() -> spec_fn(Fingering) -> bool {
    |f: Fingering| sounded_count(f) >= MIN_STRINGS
}

/// The fret numbers in `sounded_frets` are those of the sounded strings.
pub proof fn lemma_sounded_frets(f: Fingering)
    ensures
        sounded_frets(f).len() == sounded_count(f),
        sounded_count(f) <= 6,
        forall|x: int|
            sounded_frets(f).contains(x) <==> exists|i: int|
                0 <= i < 6 && (#[trigger] f[i]).sounded() && f[i].number() == x,
        sounded_count(f) == 0 <==> forall|i: int| 0 <= i < 6 ==> !(#[trigger] f[i]).sounded(),
{
    let kept = f@.filter(sounding());
    let frets = sounded_frets(f);
    f@.lemma_filter_len(sounding());
    assert forall|x: int| frets.contains(x) implies exists|i: int|
        0 <= i < 6 && (#[trigger] f[i]).sounded() && f[i].number() == x by {
        let m = choose|m: int| 0 <= m < frets.len() && frets[m] == x;
        f@.lemma_filter_pred(sounding(), m);
        assert(kept.contains(kept[m]));
        f@.lemma_filter_contains_rev(sounding(), kept[m]);
        let i = choose|i: int| 0 <= i < f@.len() && f@[i] == kept[m];
        assert(f[i].sounded() && f[i].number() == x);
    }
    assert forall|i: int| 0 <= i < 6 && (#[trigger] f[i]).sounded() implies sounded_frets(
        f,
    ).contains(f[i].number()) by {
        f@.lemma_filter_contains(sounding(), i);
        let m = choose|m: int| 0 <= m < kept.len() && kept[m] == f@[i];
        assert(frets[m] == f[i].number());
    }
    if sounded_count(f) > 0 {
        assert(frets.contains(frets[0]));
    }
}

/// The span of a fingering with a sounded string is the distance between
/// two of its sounded frets that bound all the others.
pub proof fn lemma_span_bounds(f: Fingering, lo: int, hi: int)
    requires
        exists|i: int| 0 <= i < 6 && (#[trigger] f[i]).sounded() && f[i].number() == lo,
        exists|i: int| 0 <= i < 6 && (#[trigger] f[i]).sounded() && f[i].number() == hi,
        forall|i: int| 0 <= i < 6 && (#[trigger] f[i]).sounded() ==> lo <= f[i].number() <= hi,
    ensures
        span(f) == hi - lo,
{
    let frets = sounded_frets(f);
    lemma_sounded_frets(f);
    frets.max_ensures();
    frets.min_ensures();
    assert(frets.contains(lo));
    assert(frets.contains(hi));
    assert(frets.contains(frets.max()));
    assert(frets.contains(frets.min()));
}

/// The fret span of `fingering`, or `UNBOUNDED` when no string sounds.
pub fn compactness(fingering: &Fingering) -> (c: i8)
    requires
        valid_fingering(*fingering),
    ensures
        c == span(*fingering),
        sounded_count(*fingering) > 0 ==> 0 <= c <= 9,
{
    let mut any: bool = false;
    let mut lo: u8 = 0;
    let mut hi: u8 = 0;
    let mut i: usize = 0;
    while i < 6
        invariant
            i <= 6,
            valid_fingering(*fingering),
            !any ==> forall|j: int| 0 <= j < i ==> !(#[trigger] fingering[j]).sounded(),
            any ==> lo <= hi <= 9,
            any ==> exists|j: int|
                0 <= j < i && (#[trigger] fingering[j]).sounded() && fingering[j].number() == lo,
            any ==> exists|j: int|
                0 <= j < i && (#[trigger] fingering[j]).sounded() && fingering[j].number() == hi,
            any ==> forall|j: int|
                0 <= j < i && (#[trigger] fingering[j]).sounded() ==> lo <= fingering[j].number()
                    <= hi,
        decreases 6 - i,
    {
        match fingering[i].0 {
            None => {},
            Some(fret) => {
                assert(fingering[i as int].valid());
                if !any {
                    any = true;
                    lo = fret;
                    hi = fret;
                } else {
                    if fret < lo {
                        lo = fret;
                    }
                    if fret > hi {
                        hi = fret;
                    }
                }
                assert(fingering[i as int].sounded() && fingering[i as int].number() == fret);
            },
        }
        i += 1;
    }
    proof {
        lemma_sounded_frets(*fingering);
    }
    if !any {
        UNBOUNDED
    } else {
        proof {
            lemma_span_bounds(*fingering, lo as int, hi as int);
        }
        (hi - lo) as i8
    }
}

/// Whether the fingering spans fewer than four frets.
pub fn is_compact(fingering: &Fingering) -> (compact: bool)
    requires
        valid_fingering(*fingering),
    ensures
        compact == (span(*fingering) < COMPACT_BELOW),
{
    compactness(fingering) < COMPACT_BELOW
}

/// Whether the sounded strings form one unbroken run. Muted strings may
/// stand before and after the run, in any number; a fingering with no
/// sounded string passes.
pub fn is_contiguous(fingering: &Fingering) -> (unbroken: bool)
    ensures
        unbroken == contiguous(*fingering),
{
    // 0: before the run, 1: inside it, 2: after it
    let mut zone: u8 = 0;
    let ghost mut seen: int = 0;
    let mut i: usize = 0;
    while i < 6
        invariant
            i <= 6,
            zone <= 2,
            contiguous_before(*fingering, i as int),
            zone == 0 ==> forall|j: int| 0 <= j < i ==> !(#[trigger] fingering[j]).sounded(),
            zone == 1 ==> i > 0 && fingering[i - 1].sounded(),
            zone == 2 ==> 0 <= seen < i - 1 && fingering[seen].sounded() && !fingering[i
                - 1].sounded(),
        decreases 6 - i,
    {
        let sounds = fingering[i].0.is_some();
        if zone == 0 {
            if sounds {
                zone = 1;
            }
        } else if zone == 1 {
            if !sounds {
                zone = 2;
                proof {
                    seen = i - 1;
                }
            }
        } else if sounds {
            assert(fingering[seen].sounded() && !fingering[i - 1].sounded() && fingering[i as int].sounded());
            return false;
        }
        i += 1;
    }
    true
}

/// Whether at least four of the six strings sound.
pub fn at_least_four_strings(fingering: &Fingering) -> (enough: bool)
    ensures
        enough == (sounded_count(*fingering) >= MIN_STRINGS),
{
    let mut count: usize = 0;
    let mut i: usize = 0;
    proof {
        assert(fingering@.take(0) =~= Seq::<Finger>::empty());
        fingering@.take(0).lemma_filter_len(sounding());
    }
    while i < 6
        invariant
            i <= 6,
            count <= i,
            count == fingering@.take(i as int).filter(sounding()).len(),
        decreases 6 - i,
    {
        proof {
            assert(fingering@.take(i + 1) =~= fingering@.take(i as int).push(fingering[i as int]));
            fingering@.take(i as int).lemma_filter_push(fingering[i as int], sounding());
        }
        if fingering[i].0.is_some() {
            count += 1;
        }
        i += 1;
    }
    proof {
        assert(fingering@.take(6) =~= fingering@);
    }
    count >= MIN_STRINGS
}

/// Whether the fingering passes all three playability tests.
pub fn is_playable(fingering: &Fingering) -> (ok: bool)
    requires
        valid_fingering(*fingering),
    ensures
        ok == playable(*fingering),
{
    is_compact(fingering) && is_contiguous(fingering) && at_least_four_strings(fingering)
}

/// A fingering is contiguous exactly when it reads as muted strings, then
/// a run of sounded strings, then muted strings, where each of the three
/// parts may be empty.
pub proof fn lemma_contiguous_is_one_run(f: Fingering)
    ensures
        contiguous(f) <==> exists|from: int, to: int| one_run(f, from, to),
{
    if contiguous(f) {
        let from: int = if f[0].sounded() {
            0
        } else if f[1].sounded() {
            1
        } else if f[2].sounded() {
            2
        } else if f[3].sounded() {
            3
        } else if f[4].sounded() {
            4
        } else if f[5].sounded() {
            5
        } else {
            6
        };
        let to: int = if f[5].sounded() {
            6
        } else if f[4].sounded() {
            5
        } else if f[3].sounded() {
            4
        } else if f[2].sounded() {
            3
        } else if f[1].sounded() {
            2
        } else if f[0].sounded() {
            1
        } else {
            from
        };
        assert(one_run(f, from, to));
    }
    if exists|from: int, to: int| one_run(f, from, to) {
        let (from, to) = choose|from: int, to: int| one_run(f, from, to);
        assert forall|i: int, j: int, k: int|
            0 <= i < j < k < 6 && (#[trigger] f[i]).sounded() && (#[trigger] f[k]).sounded() implies (
        #[trigger] f[j]).sounded() by {
            assert(from <= i && k < to);
        }
    }
}

/// The three tests are independent: applied one after another, in any
/// order, they keep the playable fingerings.
pub proof fn lemma_tests_in_any_order(s: Seq<Fingering>)
    ensures
        s.filter(compact_filter()).filter(contiguous_filter()).filter(enough_strings_filter())
            == s.filter(playable_filter()),
        s.filter(compact_filter()).filter(enough_strings_filter()).filter(contiguous_filter())
            == s.filter(playable_filter()),
        s.filter(contiguous_filter()).filter(compact_filter()).filter(enough_strings_filter())
            == s.filter(playable_filter()),
        s.filter(contiguous_filter()).filter(enough_strings_filter()).filter(compact_filter())
            == s.filter(playable_filter()),
        s.filter(enough_strings_filter()).filter(compact_filter()).filter(contiguous_filter())
            == s.filter(playable_filter()),
        s.filter(enough_strings_filter()).filter(contiguous_filter()).filter(compact_filter())
            == s.filter(playable_filter()),
{
    let a = compact_filter();
    let b = contiguous_filter();
    let c = enough_strings_filter();
    let all = playable_filter();
    let ab = |f: Fingering| a(f) && b(f);
    let ac = |f: Fingering| a(f) && c(f);
    let bc = |f: Fingering| b(f) && c(f);
    lemma_filter_twice(s, a, b, ab);
    lemma_filter_twice(s, b, a, ab);
    lemma_filter_twice(s, a, c, ac);
    lemma_filter_twice(s, c, a, ac);
    lemma_filter_twice(s, b, c, bc);
    lemma_filter_twice(s, c, b, bc);
    lemma_filter_twice(s, ab, c, all);
    lemma_filter_twice(s, ac, b, all);
    lemma_filter_twice(s, bc, a, all);
}

/// A fingering that sounds fewer than four strings is not playable,
/// however compact and contiguous it is.
pub proof fn lemma_sparse_is_rejected(f: Fingering)
    requires
        sounded_count(f) < MIN_STRINGS,
    ensures
        !playable(f),
{
}

} // verus!
