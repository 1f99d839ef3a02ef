//! The twelve pitch classes and semitone arithmetic on them.

use vstd::prelude::*;

verus! {

/// One of the twelve pitch classes of the chromatic scale, independent of
/// the octave. The variants are listed upwards from C.
#[derive(Debug, Copy, Clone, PartialEq, Eq, Structural, Hash, PartialOrd, Ord)]
pub enum Note {
    C,
    CSharp,
    D,
    DSharp,
    E,
    F,
    FSharp,
    G,
    GSharp,
    A,
    ASharp,
    B,
}

/// Every pitch class, upwards from C.
pub const ALL_NOTES: [Note; 12] = [
    Note::C,
    Note::CSharp,
    Note::D,
    Note::DSharp,
    Note::E,
    Note::F,
    Note::FSharp,
    Note::G,
    Note::GSharp,
    Note::A,
    Note::ASharp,
    Note::B,
];

impl Note {
    /// The number of semitones from C up to this pitch class, in `0..12`.
    pub open spec fn pitch(self) -> int {
        match self {
            Note::C => 0,
            Note::CSharp => 1,
            Note::D => 2,
            Note::DSharp => 3,
            Note::E => 4,
            Note::F => 5,
            Note::FSharp => 6,
            Note::G => 7,
            Note::GSharp => 8,
            Note::A => 9,
            Note::ASharp => 10,
            Note::B => 11,
        }
    }

    /// The pitch class that lies `n` semitones above C, octaves folded away.
    pub open spec fn of_pitch(n: int) -> Note {
        let r = n % 12;
        if r == 0 {
            Note::C
        } else if r == 1 {
            Note::CSharp
        } else if r == 2 {
            Note::D
        } else if r == 3 {
            Note::DSharp
        } else if r == 4 {
            Note::E
        } else if r == 5 {
            Note::F
        } else if r == 6 {
            Note::FSharp
        } else if r == 7 {
            Note::G
        } else if r == 8 {
            Note::GSharp
        } else if r == 9 {
            Note::A
        } else if r == 10 {
            Note::ASharp
        } else {
            Note::B
        }
    }

    /// The pitch class reached by stepping `k` semitones up from this one,
    /// wrapping from B back to C.
    pub open spec fn transpose(self, k: int) -> Note {
        Note::of_pitch(self.pitch() + k)
    }

    /// Semitones above C as a machine integer.
    pub fn to_u8(self) -> (n: u8)
        ensures
            n == self.pitch(),
            n < 12,
            ALL_NOTES[n as int] == self,
    {
        match self {
            Note::C => 0,
            Note::CSharp => 1,
            Note::D => 2,
            Note::DSharp => 3,
            Note::E => 4,
            Note::F => 5,
            Note::FSharp => 6,
            Note::G => 7,
            Note::GSharp => 8,
            Note::A => 9,
            Note::ASharp => 10,
            Note::B => 11,
        }
    }

    /// The pitch class `n` semitones above C, for `n` below twelve; larger
    /// numbers name no pitch class.
    pub fn from_u8(n: u8) -> (p: Option<Note>)
        ensures
            n < 12 ==> p == Some(Note::of_pitch(n as int)),
            n < 12 ==> p.unwrap().pitch() == n,
            n >= 12 ==> p.is_none(),
    {
        match n {
            0 => Some(Note::C),
            1 => Some(Note::CSharp),
            2 => Some(Note::D),
            3 => Some(Note::DSharp),
            4 => Some(Note::E),
            5 => Some(Note::F),
            6 => Some(Note::FSharp),
            7 => Some(Note::G),
            8 => Some(Note::GSharp),
            9 => Some(Note::A),
            10 => Some(Note::ASharp),
            11 => Some(Note::B),
            _ => None,
        }
    }

    /// Steps `k` semitones up, wrapping past B back to C. Every offset is
    /// accepted; the sum is formed before it is reduced modulo twelve.
    pub fn add_semitones(self, k: u8) -> (p: Note)
        ensures
            p == self.transpose(k as int),
            p.pitch() == (self.pitch() + k) % 12,
    {
        let sum: u16 = self.to_u8() as u16 + k as u16;
        ALL_NOTES[(sum % 12) as usize]
    }
}

/// Every pitch class is the one that its own number of semitones names.
pub proof fn lemma_pitch_round_trip(p: Note)
    ensures
        0 <= p.pitch() < 12,
        Note::of_pitch(p.pitch()) == p,
{
}

/// The pitch class that a number of semitones names has that number,
/// reduced modulo twelve, as its pitch.
pub proof fn lemma_of_pitch_pitch(n: int)
    ensures
        0 <= Note::of_pitch(n).pitch() < 12,
        Note::of_pitch(n).pitch() == n % 12,
{
}

/// Transposing wraps around the octave: only the offset modulo twelve
/// matters, and a whole octave changes nothing.
pub proof fn lemma_transpose_wraps(p: Note, k: int)
    ensures
        p.transpose(k) == p.transpose(k % 12),
        p.transpose(k + 12) == p.transpose(k),
        p.transpose(12) == p,
        p.transpose(0) == p,
{
}

/// Transposing twice is transposing once by the sum of the offsets.
pub proof fn lemma_transpose_adds(p: Note, j: int, k: int)
    ensures
        p.transpose(j).transpose(k) == p.transpose(j + k),
{
    lemma_of_pitch_pitch(p.pitch() + j);
}

} // verus!
