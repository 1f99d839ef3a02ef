//! Ranking fingerings: best score first, earlier fingering first on a tie.

use core::cmp::Ordering;
use itertools::Itertools;
use vstd::prelude::*;
use crate::chord::Chord;
use crate::finger::{valid_fingering, Fingering, Tuning};
use crate::inversion::{gen_inversions, inversions, is_inversion, lemma_inversions_exact};
use crate::pitch::Note;
use crate::playability::{is_playable, playable, playable_filter, span};
use crate::score::{fingering_score, fret_total, lemma_score_closed_form, open_strings, score};
use crate::sequences::{lemma_filter_keeps_order, lemma_filter_no_duplicates};

verus! {

/// Whether every fingering of `s` is valid.
pub open spec fn all_valid(s: Seq<Fingering>) -> bool {
    forall|i: int| 0 <= i < s.len() ==> valid_fingering(#[trigger] s[i])
}

/// The predicate "this fingering scores `k`".
pub open spec fn scoring(k: int) -> spec_fn(Fingering) -> bool {
    |f: Fingering| score(f) == k
}

/// No fingering of `r` scores higher than one that stands before it.
pub open spec fn descending(r: Seq<Fingering>) -> bool {
    forall|i: int, j: int| 0 <= i < j < r.len() ==> score(#[trigger] r[i]) >= score(#[trigger] r[j])
}

/// `r` is `s` ranked: the same fingerings, best score first, and those that
/// score alike in the order in which they stand in `s`.
pub open spec fn is_ranking_of(r: Seq<Fingering>, s: Seq<Fingering>) -> bool {
    &&& r.to_multiset() == s.to_multiset()
    &&& descending(r)
    &&& forall|k: int| #[trigger] r.filter(scoring(k)) == s.filter(scoring(k))
}

/// The playable inversions of a chord, in enumeration order.
pub open spec fn playable_inversions(root: Note, chord: Chord, t: Tuning) -> Seq<Fingering> {
    inversions(root, chord, t).filter(playable_filter())
}

/// Orders two fingerings so that the one with the higher score comes
/// first: `Less` when `a` outscores `b`, `Greater` when `b` outscores `a`.
pub fn by_descending_score(a: &Fingering, b: &Fingering) -> (o: Ordering)
    requires
        valid_fingering(*a),
        valid_fingering(*b),
    ensures
        o == Ordering::Less <==> score(*a) > score(*b),
        o == Ordering::Equal <==> score(*a) == score(*b),
        o == Ordering::Greater <==> score(*a) < score(*b),
{
    let left = fingering_score(a);
    let right = fingering_score(b);
    if left > right {
        Ordering::Less
    } else if left == right {
        Ordering::Equal
    } else {
        Ordering::Greater
    }
}

/// Calls `Itertools::sorted_by` of the itertools crate on the fingerings,
/// with `by_descending_score` as the order. That function gathers the items
/// and sorts them with the stable sort of slices. The contract claims what
/// a stable sort by this order gives: the same fingerings, none scoring
/// higher than one before it, and the fingerings of each score in the order
/// in which they came in.
#[verifier::external_body]
fn sorted_by_score(fingerings: Vec<Fingering>) -> (ranked: Vec<Fingering>)
    requires
        all_valid(fingerings@),
    ensures
        ranked@.to_multiset() == fingerings@.to_multiset(),
        forall|i: int, j: int|
            0 <= i < j < ranked.len() ==> score(#[trigger] ranked[i]) >= score(#[trigger] ranked[j]),
        forall|k: int| #[trigger] ranked@.filter(scoring(k)) == fingerings@.filter(scoring(k)),
{
    fingerings.into_iter().sorted_by(|a, b| by_descending_score(a, b)).collect()
}

/// Ranks fingerings by descending score. Fingerings that score alike keep
/// the order in which they were given.
pub fn rank_by_score(fingerings: Vec<Fingering>) -> (ranked: Vec<Fingering>)
    requires
        all_valid(fingerings@),
    ensures
        is_ranking_of(ranked@, fingerings@),
        ranked.len() == fingerings.len(),
        all_valid(ranked@),
{
    let ghost given = fingerings@;
    let ranked = sorted_by_score(fingerings);
    proof {
        lemma_ranking_keeps(ranked@, given);
    }
    ranked
}

/// Keeps the playable fingerings, in the order given.
pub fn keep_playable(candidates: &Vec<Fingering>) -> (kept: Vec<Fingering>)
    requires
        all_valid(candidates@),
    ensures
        kept@ == candidates@.filter(playable_filter()),
        all_valid(kept@),
{
    let mut kept: Vec<Fingering> = Vec::new();
    let mut i: usize = 0;
    proof {
        assert(candidates@.take(0) =~= Seq::<Fingering>::empty());
        candidates@.take(0).lemma_filter_len(playable_filter());
    }
    while i < candidates.len()
        invariant
            i <= candidates.len(),
            all_valid(candidates@),
            all_valid(kept@),
            kept@ == candidates@.take(i as int).filter(playable_filter()),
        decreases candidates.len() - i,
    {
        proof {
            assert(candidates@.take(i + 1) =~= candidates@.take(i as int).push(candidates[i as int]));
            candidates@.take(i as int).lemma_filter_push(candidates[i as int], playable_filter());
        }
        if is_playable(&candidates[i]) {
            kept.push(candidates[i]);
        }
        i += 1;
    }
    proof {
        assert(candidates@.take(candidates.len() as int) =~= candidates@);
    }
    kept
}

/// The fingerings of the chord `chord` on `root` under tuning `t` that are
/// worth playing, best first: every inversion that is compact, contiguous
/// and sounds at least four strings, ranked by descending score, with the
/// enumeration order deciding between equal scores.
pub fn chord_fingerings(root: Note, chord: Chord, t: Tuning) -> (ranked: Vec<Fingering>)
    ensures
        is_ranking_of(ranked@, playable_inversions(root, chord, t)),
        forall|i: int|
            0 <= i < ranked.len() ==> valid_fingering(#[trigger] ranked[i]) && is_inversion(
                root,
                chord,
                t,
                ranked[i],
            ) && playable(ranked[i]),
{
    let found = gen_inversions(root, chord, t);
    proof {
        lemma_inversions_exact(root, chord, t);
        assert forall|i: int| 0 <= i < found.len() implies valid_fingering(#[trigger] found[i]) by {
            assert(found@.contains(found[i]));
        }
    }
    let kept = keep_playable(&found);
    let ranked = rank_by_score(kept);
    proof {
        lemma_playable_inversions_exact(root, chord, t);
        lemma_ranking_keeps(ranked@, playable_inversions(root, chord, t));
        assert forall|i: int| 0 <= i < ranked.len() implies valid_fingering(#[trigger] ranked[i])
            && is_inversion(root, chord, t, ranked[i]) && playable(ranked[i]) by {
            assert(ranked@.contains(ranked[i]));
        }
    }
    ranked
}

/// The playable inversions are exactly the valid fingerings that are
/// inversions of the chord and pass the three playability tests.
pub proof fn lemma_playable_inversions_exact(root: Note, chord: Chord, t: Tuning)
    ensures
        forall|f: Fingering|
            playable_inversions(root, chord, t).contains(f) <==> valid_fingering(f)
                && is_inversion(root, chord, t, f) && playable(f),
        all_valid(playable_inversions(root, chord, t)),
{
    let inv = inversions(root, chord, t);
    let kept = playable_inversions(root, chord, t);
    lemma_inversions_exact(root, chord, t);
    assert forall|f: Fingering| kept.contains(f) implies valid_fingering(f) && is_inversion(
        root,
        chord,
        t,
        f,
    ) && playable(f) by {
        let i = choose|i: int| 0 <= i < kept.len() && kept[i] == f;
        inv.lemma_filter_pred(playable_filter(), i);
        inv.lemma_filter_contains_rev(playable_filter(), f);
    }
    assert forall|f: Fingering|
        valid_fingering(f) && is_inversion(root, chord, t, f) && playable(f) implies kept.contains(
        f,
    ) by {
        assert(inv.contains(f));
        let i = choose|i: int| 0 <= i < inv.len() && inv[i] == f;
        inv.lemma_filter_contains(playable_filter(), i);
    }
    assert forall|i: int| 0 <= i < kept.len() implies valid_fingering(#[trigger] kept[i]) by {
        assert(kept.contains(kept[i]));
    }
}

/// A ranking holds the fingerings that were ranked, no more and no fewer.
pub proof fn lemma_ranking_keeps(r: Seq<Fingering>, s: Seq<Fingering>)
    requires
        r.to_multiset() == s.to_multiset(),
    ensures
        r.len() == s.len(),
        forall|f: Fingering| r.contains(f) <==> s.contains(f),
        all_valid(s) ==> all_valid(r),
{
    vstd::seq_lib::to_multiset_len(r);
    vstd::seq_lib::to_multiset_len(s);
    assert forall|f: Fingering| r.contains(f) <==> s.contains(f) by {
        vstd::seq_lib::to_multiset_contains(r, f);
        vstd::seq_lib::to_multiset_contains(s, f);
    }
    if all_valid(s) {
        assert forall|i: int| 0 <= i < r.len() implies valid_fingering(#[trigger] r[i]) by {
            assert(r.contains(r[i]));
            let j = choose|j: int| 0 <= j < s.len() && s[j] == r[i];
            assert(valid_fingering(s[j]));
        }
    }
}

/// Two sequences of the same length that both stand in descending score
/// order, and hold the same fingerings in the same order for each score,
/// are one and the same.
pub proof fn lemma_descending_groups_agree(a: Seq<Fingering>, b: Seq<Fingering>)
    requires
        a.len() == b.len(),
        descending(a),
        descending(b),
        forall|k: int| #[trigger] a.filter(scoring(k)) == b.filter(scoring(k)),
    ensures
        a == b,
    decreases a.len(),
{
    if a.len() == 0 {
        assert(a =~= b);
    } else {
        let x = a.last();
        let y = b.last();
        let a0 = a.drop_last();
        let b0 = b.drop_last();
        assert(a =~= a0.push(x));
        assert(b =~= b0.push(y));
        assert(score(y) <= score(x)) by {
            a.lemma_filter_contains(scoring(score(x)), a.len() - 1);
            assert(b.filter(scoring(score(x))).contains(x));
            b.lemma_filter_contains_rev(scoring(score(x)), x);
            let j = choose|j: int| 0 <= j < b.len() && b[j] == x;
            assert(score(b[j]) >= score(b[b.len() - 1]));
        }
        assert(score(x) <= score(y)) by {
            b.lemma_filter_contains(scoring(score(y)), b.len() - 1);
            assert(a.filter(scoring(score(y))).contains(y));
            a.lemma_filter_contains_rev(scoring(score(y)), y);
            let j = choose|j: int| 0 <= j < a.len() && a[j] == y;
            assert(score(a[j]) >= score(a[a.len() - 1]));
        }
        assert forall|k: int| #[trigger] a0.filter(scoring(k)) == b0.filter(scoring(k)) by {
            a0.lemma_filter_push(x, scoring(k));
            b0.lemma_filter_push(y, scoring(k));
            assert(a.filter(scoring(k)) == b.filter(scoring(k)));
            if score(x) == k {
                let af = a0.filter(scoring(k));
                let bf = b0.filter(scoring(k));
                assert(af.push(x) == bf.push(y));
                assert(af =~= af.push(x).drop_last());
                assert(bf =~= bf.push(y).drop_last());
            }
        }
        assert(x == y) by {
            let k = score(x);
            a0.lemma_filter_push(x, scoring(k));
            b0.lemma_filter_push(y, scoring(k));
            assert(a.filter(scoring(k)) == b.filter(scoring(k)));
            assert(a0.filter(scoring(k)).push(x).last() == x);
            assert(b0.filter(scoring(k)).push(y).last() == y);
        }
        assert(descending(a0)) by {
            assert forall|i: int, j: int| 0 <= i < j < a0.len() implies score(#[trigger] a0[i])
                >= score(#[trigger] a0[j]) by {
                assert(score(a[i]) >= score(a[j]));
            }
        }
        assert(descending(b0)) by {
            assert forall|i: int, j: int| 0 <= i < j < b0.len() implies score(#[trigger] b0[i])
                >= score(#[trigger] b0[j]) by {
                assert(score(b[i]) >= score(b[j]));
            }
        }
        lemma_descending_groups_agree(a0, b0);
    }
}

/// A sequence of fingerings has one ranking only.
pub proof fn lemma_ranking_unique(r1: Seq<Fingering>, r2: Seq<Fingering>, s: Seq<Fingering>)
    requires
        is_ranking_of(r1, s),
        is_ranking_of(r2, s),
    ensures
        r1 == r2,
{
    lemma_ranking_keeps(r1, s);
    lemma_ranking_keeps(r2, s);
    assert forall|k: int| #[trigger] r1.filter(scoring(k)) == r2.filter(scoring(k)) by {
        assert(r1.filter(scoring(k)) == s.filter(scoring(k)));
        assert(r2.filter(scoring(k)) == s.filter(scoring(k)));
    }
    lemma_descending_groups_agree(r1, r2);
}

/// A ranking is stable: of two fingerings that score alike, the one that
/// stands first in what was ranked stands first in the ranking.
pub proof fn lemma_ranking_is_stable(
    r: Seq<Fingering>,
    s: Seq<Fingering>,
    p: int,
    q: int,
    i: int,
    j: int,
)
    requires
        is_ranking_of(r, s),
        s.no_duplicates(),
        0 <= p < r.len(),
        0 <= q < r.len(),
        0 <= i < j < s.len(),
        r[p] == s[i],
        r[q] == s[j],
        score(s[i]) == score(s[j]),
    ensures
        p < q,
{
    let tied = scoring(score(s[i]));
    let group = s.filter(tied);
    assert(r.filter(tied) == group);
    lemma_filter_no_duplicates(s, tied);
    lemma_filter_keeps_order(s, tied, i, j);
    let (m, n) = choose|m: int, n: int|
        0 <= m < n < group.len() && #[trigger] group[m] == s[i] && #[trigger] group[n] == s[j];
    if q < p {
        lemma_filter_keeps_order(r, tied, q, p);
        let (u, v) = choose|u: int, v: int|
            0 <= u < v < group.len() && #[trigger] group[u] == r[q] && #[trigger] group[v]
                == r[p];
        assert(u == n && v == m);
    }
}

/// In a ranking, a fingering with more open strings than another and a
/// span no wider stands before it, as long as what its fingers reach up in
/// frets beyond those of the other stays below five for each open string
/// gained, plus the frets of span saved. Where it comes to exactly that
/// much, the two score alike, and the one that stood first in what was
/// ranked stands first.
pub proof fn lemma_more_open_strings_rank_ahead(
    r: Seq<Fingering>,
    s: Seq<Fingering>,
    p: int,
    q: int,
    i: int,
    j: int,
)
    requires
        is_ranking_of(r, s),
        s.no_duplicates(),
        0 <= p < r.len(),
        0 <= q < r.len(),
        0 <= i < s.len(),
        0 <= j < s.len(),
        r[p] == s[i],
        r[q] == s[j],
        open_strings(r[p]) > open_strings(r[q]),
        span(r[p]) <= span(r[q]),
        ({
            let gained = 5 * (open_strings(r[p]) - open_strings(r[q])) + (span(r[q]) - span(r[p]));
            let reached = fret_total(r[p]) - fret_total(r[q]);
            reached < gained || (reached == gained && i < j)
        }),
    ensures
        p < q,
{
    lemma_score_closed_form(r[p]);
    lemma_score_closed_form(r[q]);
    if score(r[p]) == score(r[q]) {
        lemma_ranking_is_stable(r, s, p, q, i, j);
    }
}

} // verus!
