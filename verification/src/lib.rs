//! Verified core of a log watcher for the game EVE Online.
use vstd::prelude::*;

pub mod text;
pub mod text_map;
pub mod utf16;
pub mod engine;
pub mod patterns;
pub mod scripts;

verus! {
} // verus!
