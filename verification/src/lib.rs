//! The verified core of an organism that persists identity, memory, skills
//! and beliefs, and changes itself only through governed proposals.

pub mod amendment;
pub mod codec;
pub mod embedding;
pub mod framing;
pub mod ledger;
pub mod memory;
pub mod pool;
pub mod proposal;
pub mod signals;
pub mod text;
pub mod trials;
