//! The validity capability: construction never enforces ranges, this
//! predicate does.

use vstd::prelude::*;

verus! {

/// Whether a value denotes a real calendar point.  `spec_valid` is a pure
/// function of the value, so repeated calls of `is_valid` always agree and
/// never change the value.
pub trait Valid {
    /// What it means for the value to be a real calendar point.
    spec fn spec_valid(&self) -> bool;

    fn is_valid(&self) -> (r: bool)
        ensures
            r == self.spec_valid(),
    ;
}

} // verus!
