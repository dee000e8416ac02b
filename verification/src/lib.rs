//! Object-protocol and iteration engine for a dynamically typed object
//! runtime: slot-table dispatch across a type hierarchy, iterator state
//! machines that stay safe under structural mutation of their subject,
//! composite iterators (enumerate, map, zip), ordered-mapping views with
//! set algebra, and descriptor binding.

pub mod bignum;
pub mod runtime;
pub mod odict;
pub mod mapping;
pub mod sequence;
pub mod views;
pub mod iter;
pub mod enumerate;
pub mod map;
pub mod zip;
pub mod descr;
pub mod warnings;
pub mod value;

use vstd::prelude::*;

verus! {

/// The two phases of every iterator: still producing items, or finished
/// for good. Exhaustion is one-directional; no operation revives an
/// exhausted iterator.
#[derive(Clone, Copy, Debug, PartialEq, Eq, Structural)]
pub enum IterStatus {
    Active,
    Exhausted,
}

} // verus!
