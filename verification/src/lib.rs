//! A personal exercise tracker: a regimen of named exercises, each with a
//! daily repetition goal and a per-day completion history, one history entry
//! per calendar day since the exercise was created.

mod clock;
pub mod laws;
pub mod parse;
pub mod regimen;

pub use parse::parse_u32;
