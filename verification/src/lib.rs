//! Verified core of a pocket-cube (2x2x2 corner-twisting puzzle) state-space
//! explorer: a bijective encoding between cube states and dense integer
//! identifiers, the three quarter-turn generators, the transition-table
//! builder over all reachable states, and the binary table codec.

pub mod calc;
pub mod enums;
pub mod group;
pub mod moves;
pub mod perm;
pub mod types;
