//! Settings shared by a whole scan.
use vstd::prelude::*;

verus! {

/// Settings shared by a whole scan.
#[derive(Debug, Clone)]
pub struct ScanContext {
    pub verbose: bool,
}

impl Default for ScanContext {
    fn default() -> (c: Self)
        ensures
            !c.verbose,
    {
        Self { verbose: false }
    }
}

} // verus!
