//! A pull-driven lazy sequence whose deferred steps run at most once and
//! without growing the call stack, and a size-scaled generator of arbitrary
//! values driven by an explicit random source.
use vstd::prelude::*;

pub mod arbitrary;
pub mod lazy;

verus! {

} // verus!
