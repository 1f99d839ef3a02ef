//! Finding the fingerings that sound exactly a given chord.

use vstd::prelude::*;
use crate::chord::Chord;
use crate::finger::{
    get_played_notes, played_notes, sounded_pitch, valid_fingering, Finger, Fingering, Tuning,
};
use crate::odometer::{
    all_fingerings, lemma_enumeration_complete, lemma_rank_all_muted, lemma_unrank_rank,
    next_fingering, rank, FINGERING_COUNT,
};
use crate::pitch::Note;
use crate::sequences::lemma_filter_no_duplicates;

verus! {

/// Whether fingering `f` under tuning `t` sounds exactly the pitch classes
/// `tones`: no sounded string lies outside `tones`, and each of `tones` is
/// sounded by at least one string. A pitch class may sound on several
/// strings, and `tones` may name one more than once.
pub open spec fn sounds_exactly(tones: Seq<Note>, t: Tuning, f: Fingering) -> bool {
    let played = played_notes(t, f);
    &&& forall|i: int|
        0 <= i < 6 && (#[trigger] played[i]).is_some() ==> tones.contains(played[i].unwrap())
    &&& forall|j: int| 0 <= j < tones.len() ==> played.contains(Some(#[trigger] tones[j]))
}

/// Whether `f` is an inversion of the chord `chord` on `root`.
pub open spec fn is_inversion(root: Note, chord: Chord, t: Tuning, f: Fingering) -> bool {
    sounds_exactly(chord.tones(root), t, f)
}

/// `is_inversion` for a fixed chord and tuning, as a predicate on fingerings.
pub open spec fn inversion_filter(root: Note, chord: Chord, t: Tuning) -> spec_fn(
    Fingering,
) -> bool {
    |f: Fingering| is_inversion(root, chord, t, f)
}

/// All inversions of the chord, in enumeration order.
pub open spec fn inversions(root: Note, chord: Chord, t: Tuning) -> Seq<Fingering> {
    all_fingerings().filter(inversion_filter(root, chord, t))
}

/// The pitch classes that sound under a fingering, as a set.
pub open spec fn sounded_set(t: Tuning, f: Fingering) -> Set<Note> {
    Set::new(|n: Note| played_notes(t, f).contains(Some(n)))
}

/// A fingering sounds exactly `tones` if and only if the set of pitch
/// classes on its sounded strings equals the set of `tones`.
pub proof fn lemma_sounds_exactly_is_set_equality(tones: Seq<Note>, t: Tuning, f: Fingering)
    ensures
        sounds_exactly(tones, t, f) <==> sounded_set(t, f) == tones.to_set(),
{
    let played = played_notes(t, f);
    if sounds_exactly(tones, t, f) {
        assert forall|n: Note| sounded_set(t, f).contains(n) <==> tones.to_set().contains(
            n,
        ) by {
            if sounded_set(t, f).contains(n) {
                let i = choose|i: int| 0 <= i < played.len() && played[i] == Some(n);
                assert(played[i].is_some());
            }
            if tones.to_set().contains(n) {
                let j = choose|j: int| 0 <= j < tones.len() && tones[j] == n;
                assert(played.contains(Some(tones[j])));
            }
        }
        assert(sounded_set(t, f) =~= tones.to_set());
    }
    if sounded_set(t, f) == tones.to_set() {
        assert forall|i: int| 0 <= i < 6 && (#[trigger] played[i]).is_some() implies tones.contains(
            played[i].unwrap(),
        ) by {
            let n = played[i].unwrap();
            assert(played[i] == Some(n));
            assert(sounded_set(t, f).contains(n));
            assert(tones.to_set().contains(n));
        }
        assert forall|j: int| 0 <= j < tones.len() implies played.contains(
            Some(#[trigger] tones[j]),
        ) by {
            assert(tones.to_set().contains(tones[j]));
            assert(sounded_set(t, f).contains(tones[j]));
        }
    }
}

/// The inversions of a chord are exactly the valid fingerings that sound
/// its tones and nothing else, each listed once.
pub proof fn lemma_inversions_exact(root: Note, chord: Chord, t: Tuning)
    ensures
        forall|f: Fingering|
            inversions(root, chord, t).contains(f) <==> valid_fingering(f) && is_inversion(
                root,
                chord,
                t,
                f,
            ),
        forall|f: Fingering|
            inversions(root, chord, t).contains(f) ==> sounded_set(t, f) == chord.tones(
                root,
            ).to_set(),
        inversions(root, chord, t).no_duplicates(),
        inversions(root, chord, t).len() <= FINGERING_COUNT,
{
    let all = all_fingerings();
    let pred = inversion_filter(root, chord, t);
    lemma_enumeration_complete();
    all.lemma_filter_len(pred);
    assert forall|f: Fingering| valid_fingering(f) && is_inversion(root, chord, t, f) implies all.filter(
        pred,
    ).contains(f) by {
        lemma_unrank_rank(f);
        all.lemma_filter_contains(pred, rank(f));
    }
    assert forall|f: Fingering| all.filter(pred).contains(f) implies valid_fingering(f)
        && is_inversion(root, chord, t, f) && sounded_set(t, f) == chord.tones(root).to_set() by {
        let i = choose|i: int| 0 <= i < all.filter(pred).len() && all.filter(pred)[i] == f;
        all.lemma_filter_pred(pred, i);
        all.lemma_filter_contains_rev(pred, f);
        lemma_sounds_exactly_is_set_equality(chord.tones(root), t, f);
    }
    lemma_filter_no_duplicates(all, pred);
}

/// Whether `note` is among `tones`.
fn has_note(tones: &Vec<Note>, note: Note) -> (found: bool)
    ensures
        found == tones@.contains(note),
{
    let mut j: usize = 0;
    while j < tones.len()
        invariant
            j <= tones.len(),
            forall|k: int| 0 <= k < j ==> tones[k] != note,
        decreases tones.len() - j,
    {
        if tones[j] == note {
            return true;
        }
        j += 1;
    }
    false
}

/// Whether some string sounds `note`.
fn is_held(played: &[Option<Note>; 6], note: Note) -> (found: bool)
    ensures
        found == played@.contains(Some(note)),
{
    let mut i: usize = 0;
    while i < 6
        invariant
            i <= 6,
            forall|k: int| 0 <= k < i ==> played[k] != Some(note),
        decreases 6 - i,
    {
        if played[i] == Some(note) {
            return true;
        }
        i += 1;
    }
    false
}

/// Decides whether `fingering` sounds exactly the pitch classes `tones`
/// under tuning `t`.
pub fn sounds_chord(tones: &Vec<Note>, t: Tuning, fingering: Fingering) -> (exact: bool)
    ensures
        exact == sounds_exactly(tones@, t, fingering),
{
    let ghost played = played_notes(t, fingering);
    let mut i: usize = 0;
    while i < 6
        invariant
            i <= 6,
            played == played_notes(t, fingering),
            forall|k: int|
                0 <= k < i && (#[trigger] played[k]).is_some() ==> tones@.contains(
                    played[k].unwrap(),
                ),
        decreases 6 - i,
    {
        match sounded_pitch(t[i], fingering[i]) {
            None => {},
            Some(note) => {
                if !has_note(tones, note) {
                    assert(played[i as int] == Some(note));
                    return false;
                }
            },
        }
        i += 1;
    }
    let held = get_played_notes(t, fingering);
    let mut j: usize = 0;
    while j < tones.len()
        invariant
            j <= tones.len(),
            held@ == played_notes(t, fingering),
            forall|k: int| 0 <= k < j ==> held@.contains(Some(#[trigger] tones[k])),
        decreases tones.len() - j,
    {
        if !is_held(&held, tones[j]) {
            return false;
        }
        j += 1;
    }
    true
}

/// Walks the whole space of fingerings and keeps, in enumeration order,
/// those that sound exactly the chord `chord` on `root` under tuning `t`.
/// Nothing is pruned: each of the `FINGERING_COUNT` candidates is examined.
pub fn gen_inversions(root: Note, chord: Chord, t: Tuning) -> (found: Vec<Fingering>)
    ensures
        found@ == inversions(root, chord, t),
{
    let tones = chord.notes(root);
    let mut found: Vec<Fingering> = Vec::new();
    let mut fingering: Fingering = [Finger(None); 6];
    let ghost pred = inversion_filter(root, chord, t);
    let ghost all = all_fingerings();
    proof {
        lemma_rank_all_muted(fingering);
        assert(all.take(0) =~= Seq::<Fingering>::empty());
    }
    loop
        invariant_except_break
            valid_fingering(fingering),
            found@ == all.take(rank(fingering)).filter(pred),
        invariant
            tones@ == chord.tones(root),
            pred == inversion_filter(root, chord, t),
            all == all_fingerings(),
        ensures
            found@ == all.filter(pred),
        decreases FINGERING_COUNT - rank(fingering),
    {
        let ghost k = rank(fingering);
        if sounds_chord(&tones, t, fingering) {
            found.push(fingering);
        }
        proof {
            lemma_unrank_rank(fingering);
            assert(all.take(k + 1) =~= all.take(k).push(fingering));
            all.take(k).lemma_filter_push(fingering, pred);
        }
        if !next_fingering(&mut fingering) {
            proof {
                assert(all.take(k + 1) =~= all);
            }
            break;
        }
    }
    found
}

} // verus!
