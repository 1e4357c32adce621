//! The family of the shared domain, which nobody outside can name and so make a domain of.
use vstd::prelude::*;

verus! {

/// The family of the domain that all threads of a program share.
#[non_exhaustive]
pub struct Global;

} // verus!
