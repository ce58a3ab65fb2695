//! Consensus core of a proof-of-space blockchain: header digests, solution
//! verification, equivocation detection, difficulty and salt control, slot
//! timing and the archiving of history into erasure-coded segments.

pub mod archiver;
pub mod authoring;
pub mod bytes;
pub mod crypto;
pub mod difficulty;
pub mod digest;
pub mod equivocation;
pub mod header;
pub mod pending;
pub mod slot_clock;
pub mod verification;
