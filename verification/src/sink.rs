//! Learnable virtual attention sink.
//!
//! One learnable scalar per head acts as a virtual "null" key with value
//! zero; it joins the same online softmax as the real entries.
use vstd::prelude::*;

verus! {

/// Number of sink values per head (exactly one).
pub const SINK_VALUES_PER_HEAD: u32 = 1;

} // verus!
