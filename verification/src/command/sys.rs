//! The `sys` command.
use vstd::prelude::*;

verus! {

/// The arguments of the `sys` command.
#[derive(Debug)]
pub struct SysArgs {
    /// Target host.
    pub target: String,
    /// Scan type, `basic` by default.
    pub scan_type: String,
}

} // verus!
