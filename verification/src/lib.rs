//! Verified core of an image-tagging desktop tool: tag-file text handling,
//! folder listings, renaming and sorting decisions, the model catalog and
//! tag-definition parsing. File-system and network work is done by callers,
//! which hand the library what they read and carry out what it decides.
use vstd::prelude::*;

pub mod error;
pub mod logic;
pub mod models;
pub mod services;

verus! {

} // verus!
