use vstd::prelude::*;

verus! {

/// A surveyor of one family of persistence mechanisms, known by its name.
pub trait Checker {
    /// The name the checker is selected and reported by.
    fn name(&self) -> &'static str;
}

} // verus!
