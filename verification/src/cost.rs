//! The unit in which evaluation work is measured.

use vstd::prelude::*;

verus! {

/// Resource units charged against a caller-supplied ceiling.
pub type Cost = u64;

} // verus!
