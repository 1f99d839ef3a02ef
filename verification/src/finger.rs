//! Fret positions, fingerings and tunings.

use vstd::prelude::*;
use crate::pitch::Note;

verus! {

/// The highest fret that a fingering may use.
pub const MAX_FRETS: u8 = 9;

/// What the fretting hand does on one string: `None` leaves the string
/// muted, `Some(0)` plays it open, `Some(n)` stops it at fret `n`.
#[derive(Debug, Copy, Clone, PartialEq, Eq, Structural, Hash)]
pub struct Finger(pub Option<u8>);

/// One fret position per string, lowest-pitched string first.
pub type Fingering = [Finger; 6];

/// The pitch class of each open string, lowest-pitched string first.
pub type Tuning = [Note; 6];

/// Standard guitar tuning.
pub const DEFAULT_TUNING: Tuning = [Note::E, Note::A, Note::D, Note::G, Note::B, Note::E];

impl Finger {
    /// A position is valid when it is muted or uses a fret up to `MAX_FRETS`.
    pub open spec fn valid(self) -> bool {
        match self.0 {
            None => true,
            Some(fret) => fret <= MAX_FRETS,
        }
    }

    /// Whether the string sounds, open or fretted.
    pub open spec fn sounded(self) -> bool {
        self.0.is_some()
    }

    /// The fret number of a sounded string, and `-1` for a muted one.
    pub open spec fn number(self) -> int {
        match self.0 {
            None => -1,
            Some(fret) => fret as int,
        }
    }

    /// The character that tablature uses for this position: `x` for a
    /// muted string, the decimal digit of the fret otherwise.
    pub open spec fn symbol(self) -> char {
        match self.0 {
            None => 'x',
            Some(0) => '0',
            Some(1) => '1',
            Some(2) => '2',
            Some(3) => '3',
            Some(4) => '4',
            Some(5) => '5',
            Some(6) => '6',
            Some(7) => '7',
            Some(8) => '8',
            Some(_) => '9',
        }
    }

    /// The position as a small signed number: the fret, or `-1` when muted.
    pub fn to_i8(self) -> (n: i8)
        requires
            self.valid(),
        ensures
            n == self.number(),
    {
        match self.0 {
            None => -1,
            Some(fret) => fret as i8,
        }
    }

    /// The position as a tablature character.
    pub fn to_char(self) -> (c: char)
        requires
            self.valid(),
        ensures
            c == self.symbol(),
    {
        match self.0 {
            None => 'x',
            Some(fret) => ('0' as u8 + fret) as char,
        }
    }
}

/// A fingering is valid when each of its six positions is.
pub open spec fn valid_fingering(f: Fingering) -> bool {
    forall|i: int| 0 <= i < 6 ==> (#[trigger] f[i]).valid()
}

/// The pitch class that a string tuned to `open` gives under `finger`:
/// nothing when muted, else the open pitch raised by the fret number.
pub open spec fn pitch_under(open: Note, finger: Finger) -> Option<Note> {
    match finger.0 {
        None => None,
        Some(fret) => Some(open.transpose(fret as int)),
    }
}

/// The pitch class sounded on each string, `None` where it is muted.
pub open spec fn played_notes(t: Tuning, f: Fingering) -> Seq<Option<Note>> {
    Seq::new(6, |i: int| pitch_under(t[i], f[i]))
}

/// Combines an open string's pitch class with a fret position. A muted
/// string has no pitch; that is an absence, not a failure.
pub fn sounded_pitch(open: Note, finger: Finger) -> (p: Option<Note>)
    ensures
        p == pitch_under(open, finger),
{
    match finger.0 {
        None => None,
        Some(fret) => Some(open.add_semitones(fret)),
    }
}

/// The pitch class that each string of `fingering` sounds under tuning `t`.
pub fn get_played_notes(t: Tuning, fingering: Fingering) -> (notes: [Option<Note>; 6])
    ensures
        notes@ == played_notes(t, fingering),
{
    let mut notes: [Option<Note>; 6] = [None; 6];
    let mut i: usize = 0;
    while i < 6
        invariant
            i <= 6,
            forall|j: int| 0 <= j < i ==> notes[j] == pitch_under(t[j], fingering[j]),
        decreases 6 - i,
    {
        notes[i] = sounded_pitch(t[i], fingering[i]);
        i += 1;
    }
    notes
}

} // verus!
