//! Equality of values as they are.

use vstd::prelude::*;

verus! {

/// Two values are one and the same.
///
/// Where a contract compares two large values, this says so without
/// asking for a comparison part by part.
pub open spec fn same<T>(a: T, b: T) -> bool {
    a == b
}

} // verus!
