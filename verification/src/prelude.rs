use vstd::prelude::*;

verus! {

/// A plain newtype wrapper, handy for hanging conversions on values whose
/// types are not this crate's own.
pub struct W<T>(pub T);

} // verus!
