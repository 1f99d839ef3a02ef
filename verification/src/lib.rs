//! Playable chord fingerings for a six-string fretted instrument.
//!
//! The crate enumerates every way of fretting or muting six strings, keeps
//! the fingerings that sound exactly the pitch classes of a chord, drops the
//! ones that are impractical to play, and ranks the rest by a playability
//! score. Every function states what it computes in a contract, and Verus
//! proves that it does.

pub mod sequences;
pub mod pitch;
pub mod finger;
pub mod chord;
pub mod odometer;
pub mod inversion;
pub mod playability;
pub mod score;
pub mod ranking;
pub mod report;
