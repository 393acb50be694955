use vstd::prelude::*;

verus! {

/// The pass that clears the surface and sets up depth testing; it holds no state.
pub struct Initializer {}

impl Initializer {
    pub fn default() -> (r: Initializer)
        ensures
            r == (Initializer {}),
    {
        Initializer {  }
    }
}

} // verus!
