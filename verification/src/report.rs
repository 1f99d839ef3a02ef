//! The table of ranked fingerings for every root and chord quality.

use vstd::prelude::*;
use crate::chord::{Chord, ALL_CHORDS};
use crate::finger::{Fingering, Tuning};
use crate::pitch::{Note, ALL_NOTES};
use crate::ranking::{chord_fingerings, is_ranking_of, playable_inversions};

verus! {

/// The ranked fingerings of one chord quality on one root.
#[derive(Debug)]
pub struct ChordEntry {
    pub chord: Chord,
    pub fingerings: Vec<Fingering>,
}

/// The entries of every chord quality on one root.
#[derive(Debug)]
pub struct RootEntry {
    pub root: Note,
    pub chords: Vec<ChordEntry>,
}

/// The whole table: one entry for every root, each holding one entry for
/// every chord quality.
#[derive(Debug)]
pub struct Report {
    pub roots: Vec<RootEntry>,
}

impl RootEntry {
    /// The entry lists the chord qualities in the order of `ALL_CHORDS`.
    pub open spec fn wf(self) -> bool {
        &&& self.chords.len() == 18
        &&& forall|c: int| 0 <= c < 18 ==> (#[trigger] self.chords[c]).chord == ALL_CHORDS[c]
    }
}

impl Report {
    /// The report lists the roots upwards from C, and under each root the
    /// chord qualities in the order of `ALL_CHORDS`.
    pub open spec fn wf(self) -> bool {
        &&& self.roots.len() == 12
        &&& forall|r: int|
            0 <= r < 12 ==> (#[trigger] self.roots[r]).root == ALL_NOTES[r] && self.roots[r].wf()
    }

    /// What the report holds for a root and a chord quality.
    pub open spec fn entry(self, root: Note, chord: Chord) -> Seq<Fingering> {
        self.roots[root.pitch()].chords[chord.ordinal()].fingerings@
    }

    /// The report holds, for every root and chord quality, the playable
    /// inversions under tuning `t`, ranked.
    pub open spec fn ranks(self, t: Tuning) -> bool {
        forall|root: Note, chord: Chord|
            is_ranking_of(#[trigger] self.entry(root, chord), playable_inversions(root, chord, t))
    }

    /// The ranked fingerings that the report holds for a root and a chord
    /// quality.
    pub fn fingerings(&self, root: Note, chord: Chord) -> (list: &Vec<Fingering>)
        requires
            self.wf(),
        ensures
            list@ == self.entry(root, chord),
    {
        let r = root.to_u8() as usize;
        let c = chord.index();
        assert(self.roots[r as int].wf());
        &self.roots[r].chords[c].fingerings
    }
}

/// The entries of every chord quality on `root` under tuning `t`.
pub fn root_entry(root: Note, t: Tuning) -> (entry: RootEntry)
    ensures
        entry.root == root,
        entry.wf(),
        forall|c: int|
            0 <= c < 18 ==> is_ranking_of(
                (#[trigger] entry.chords[c]).fingerings@,
                playable_inversions(root, ALL_CHORDS[c], t),
            ),
{
    let mut chords: Vec<ChordEntry> = Vec::new();
    let mut c: usize = 0;
    while c < 18
        invariant
            c <= 18,
            chords.len() == c,
            forall|k: int| 0 <= k < c ==> (#[trigger] chords[k]).chord == ALL_CHORDS[k],
            forall|k: int|
                0 <= k < c ==> is_ranking_of(
                    (#[trigger] chords[k]).fingerings@,
                    playable_inversions(root, ALL_CHORDS[k], t),
                ),
        decreases 18 - c,
    {
        let chord = ALL_CHORDS[c];
        let fingerings = chord_fingerings(root, chord, t);
        chords.push(ChordEntry { chord, fingerings });
        c += 1;
    }
    RootEntry { root, chords }
}

/// Builds the whole table for tuning `t`: for each of the twelve roots and
/// each of the eighteen chord qualities, the playable inversions, best
/// first.
pub fn build_report(t: Tuning) -> (report: Report)
    ensures
        report.wf(),
        report.ranks(t),
{
    let mut roots: Vec<RootEntry> = Vec::new();
    let mut r: usize = 0;
    while r < 12
        invariant
            r <= 12,
            roots.len() == r,
            forall|k: int| 0 <= k < r ==> (#[trigger] roots[k]).root == ALL_NOTES[k] && roots[k].wf(),
            forall|k: int, c: int|
                0 <= k < r && 0 <= c < 18 ==> is_ranking_of(
                    (#[trigger] roots[k].chords[c]).fingerings@,
                    playable_inversions(ALL_NOTES[k], ALL_CHORDS[c], t),
                ),
        decreases 12 - r,
    {
        let entry = root_entry(ALL_NOTES[r], t);
        roots.push(entry);
        r += 1;
    }
    let report = Report { roots };
    proof {
        assert forall|root: Note, chord: Chord|
            is_ranking_of(
                #[trigger] report.entry(root, chord),
                playable_inversions(root, chord, t),
            ) by {
            let k = root.pitch();
            let c = chord.ordinal();
            assert(ALL_NOTES[k] == root);
            assert(ALL_CHORDS[c] == chord);
            assert(is_ranking_of(
                report.roots[k].chords[c].fingerings@,
                playable_inversions(ALL_NOTES[k], ALL_CHORDS[c], t),
            ));
        }
    }
    report
}

} // verus!
