//! Chord qualities and the pitch classes they call for.

use vstd::prelude::*;
use crate::pitch::Note;

verus! {

/// The quality of a chord: a named pattern of intervals above a root.
#[derive(Debug, Copy, Clone, PartialEq, Eq, Structural, Hash, PartialOrd, Ord)]
pub enum Chord {
    Major,
    Minor,
    Augmented,
    Diminished,
    Seventh,
    MajorSeventh,
    MinorSeventh,
    Sus2,
    Sus4,
    MinorMajorSeventh,
    DiminishedSeventh,
    MajorNinth,
    MinorNinth,
    AddNinth,
    AddEleventh,
    MinorSixth,
    MajorSixth,
    AddSixthAddNinth,
}

/// Every chord quality, in the order in which a report lists them.
pub const ALL_CHORDS: [Chord; 18] = [
    Chord::Major,
    Chord::Minor,
    Chord::Augmented,
    Chord::Diminished,
    Chord::Seventh,
    Chord::MajorSeventh,
    Chord::MinorSeventh,
    Chord::Sus2,
    Chord::Sus4,
    Chord::MinorMajorSeventh,
    Chord::DiminishedSeventh,
    Chord::MajorNinth,
    Chord::MinorNinth,
    Chord::AddNinth,
    Chord::AddEleventh,
    Chord::MinorSixth,
    Chord::MajorSixth,
    Chord::AddSixthAddNinth,
];

impl Chord {
    /// The place of the quality in `ALL_CHORDS`.
    pub open spec fn ordinal(self) -> int {
        match self {
            Chord::Major => 0,
            Chord::Minor => 1,
            Chord::Augmented => 2,
            Chord::Diminished => 3,
            Chord::Seventh => 4,
            Chord::MajorSeventh => 5,
            Chord::MinorSeventh => 6,
            Chord::Sus2 => 7,
            Chord::Sus4 => 8,
            Chord::MinorMajorSeventh => 9,
            Chord::DiminishedSeventh => 10,
            Chord::MajorNinth => 11,
            Chord::MinorNinth => 12,
            Chord::AddNinth => 13,
            Chord::AddEleventh => 14,
            Chord::MinorSixth => 15,
            Chord::MajorSixth => 16,
            Chord::AddSixthAddNinth => 17,
        }
    }

    /// The place of the quality in `ALL_CHORDS`, as an index.
    pub fn index(self) -> (i: usize)
        ensures
            i == self.ordinal(),
            i < 18,
            ALL_CHORDS[i as int] == self,
    {
        match self {
            Chord::Major => 0,
            Chord::Minor => 1,
            Chord::Augmented => 2,
            Chord::Diminished => 3,
            Chord::Seventh => 4,
            Chord::MajorSeventh => 5,
            Chord::MinorSeventh => 6,
            Chord::Sus2 => 7,
            Chord::Sus4 => 8,
            Chord::MinorMajorSeventh => 9,
            Chord::DiminishedSeventh => 10,
            Chord::MajorNinth => 11,
            Chord::MinorNinth => 12,
            Chord::AddNinth => 13,
            Chord::AddEleventh => 14,
            Chord::MinorSixth => 15,
            Chord::MajorSixth => 16,
            Chord::AddSixthAddNinth => 17,
        }
    }

    /// The intervals of the chord, in semitones above its root. Intervals
    /// beyond the octave are kept as they are named (a ninth is 14).
    pub open spec fn intervals(self) -> Seq<int> {
        match self {
            Chord::Major => seq![0, 4, 7],
            Chord::Minor => seq![0, 3, 7],
            Chord::Augmented => seq![0, 4, 8],
            Chord::Diminished => seq![0, 3, 6],
            Chord::Sus2 => seq![0, 2, 7],
            Chord::Sus4 => seq![0, 5, 7],
            Chord::Seventh => seq![0, 4, 7, 10],
            Chord::MajorSeventh => seq![0, 4, 7, 11],
            Chord::MinorSeventh => seq![0, 3, 7, 10],
            Chord::MinorMajorSeventh => seq![0, 3, 7, 11],
            Chord::DiminishedSeventh => seq![0, 3, 6, 9],
            Chord::MajorSixth => seq![0, 4, 7, 9],
            Chord::MinorSixth => seq![0, 3, 7, 9],
            Chord::MajorNinth => seq![0, 4, 7, 11, 14],
            Chord::MinorNinth => seq![0, 3, 7, 10, 14],
            Chord::AddNinth => seq![0, 4, 7, 14],
            Chord::AddEleventh => seq![0, 4, 7, 17],
            Chord::AddSixthAddNinth => seq![0, 4, 7, 9, 14],
        }
    }

    /// The chord tones on `root`: each interval laid above the root, with
    /// wraparound, in the order of `intervals`.
    pub open spec fn tones(self, root: Note) -> Seq<Note> {
        Seq::new(self.intervals().len(), |i: int| root.transpose(self.intervals()[i]))
    }

    /// The pitch classes that the chord on `root` requires. The result
    /// depends on the quality and the root alone.
    pub fn notes(&self, root: Note) -> (tones: Vec<Note>)
        ensures
            tones@ == self.tones(root),
            3 <= tones.len() <= 5,
            tones[0] == root,
    {
        let tones = match self {
            Chord::Major => vec![root, root.add_semitones(4), root.add_semitones(7)],
            Chord::Minor => vec![root, root.add_semitones(3), root.add_semitones(7)],
            Chord::Sus2 => vec![root, root.add_semitones(2), root.add_semitones(7)],
            Chord::Sus4 => vec![root, root.add_semitones(5), root.add_semitones(7)],
            Chord::Augmented => vec![root, root.add_semitones(4), root.add_semitones(8)],
            Chord::Diminished => vec![root, root.add_semitones(3), root.add_semitones(6)],
            Chord::MinorSixth => vec![
                root,
                root.add_semitones(3),
                root.add_semitones(7),
                root.add_semitones(9),
            ],
            Chord::MajorSixth => vec![
                root,
                root.add_semitones(4),
                root.add_semitones(7),
                root.add_semitones(9),
            ],
            Chord::Seventh => vec![
                root,
                root.add_semitones(4),
                root.add_semitones(7),
                root.add_semitones(10),
            ],
            Chord::MajorSeventh => vec![
                root,
                root.add_semitones(4),
                root.add_semitones(7),
                root.add_semitones(11),
            ],
            Chord::MinorSeventh => vec![
                root,
                root.add_semitones(3),
                root.add_semitones(7),
                root.add_semitones(10),
            ],
            Chord::MinorMajorSeventh => vec![
                root,
                root.add_semitones(3),
                root.add_semitones(7),
                root.add_semitones(11),
            ],
            Chord::DiminishedSeventh => vec![
                root,
                root.add_semitones(3),
                root.add_semitones(6),
                root.add_semitones(9),
            ],
            Chord::MajorNinth => vec![
                root,
                root.add_semitones(4),
                root.add_semitones(7),
                root.add_semitones(11),
                root.add_semitones(14),
            ],
            Chord::MinorNinth => vec![
                root,
                root.add_semitones(3),
                root.add_semitones(7),
                root.add_semitones(10),
                root.add_semitones(14),
            ],
            Chord::AddNinth => vec![
                root,
                root.add_semitones(4),
                root.add_semitones(7),
                root.add_semitones(14),
            ],
            Chord::AddEleventh => vec![
                root,
                root.add_semitones(4),
                root.add_semitones(7),
                root.add_semitones(17),
            ],
            Chord::AddSixthAddNinth => vec![
                root,
                root.add_semitones(4),
                root.add_semitones(7),
                root.add_semitones(9),
                root.add_semitones(14),
            ],
        };
        proof {
            crate::pitch::lemma_transpose_wraps(root, 0);
            assert(tones@ =~= self.tones(root));
        }
        tones
    }
}

/// Every chord has between three and five tones, the first of which is
/// its root; each tone is the root raised by the matching interval.
pub proof fn lemma_tones_shape(chord: Chord, root: Note)
    ensures
        3 <= chord.tones(root).len() <= 5,
        chord.tones(root).len() == chord.intervals().len(),
        chord.tones(root)[0] == root,
        forall|i: int|
            0 <= i < chord.intervals().len() ==> #[trigger] chord.tones(root)[i]
                == root.transpose(chord.intervals()[i]),
{
    crate::pitch::lemma_transpose_wraps(root, 0);
}

} // verus!
