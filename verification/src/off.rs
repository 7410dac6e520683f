//! Offset numbers: 0-based indexes into the line-pointer array of a page.

#![allow(non_upper_case_globals)]

use vstd::prelude::*;

verus! {

/// Index of a line pointer within a page.
pub type OffsetNumber = u16;

/// The first valid offset number of a page.
pub const FirstOffsetNumber: OffsetNumber = 0;

/// The offset number that stands for "no line pointer".
pub const InvalidOffsetNumber: OffsetNumber = 0xFFFF;

} // verus!
