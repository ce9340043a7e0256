//! Rewriting of interactive-rebase instruction files.
//!
//! The library takes the text of an instruction file, locates a target line
//! and a marker entry, and produces a new file in which the marker entry has
//! been moved to sit directly behind the target line with its action token
//! replaced. All text is handled as bytes; one line is one `Vec<u8>`.

pub mod laws;
pub mod lines;
pub mod rewrite;
pub mod text;

use vstd::prelude::*;

verus! {

} // verus!
