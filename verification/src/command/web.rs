//! The `web` command.
use vstd::prelude::*;

verus! {

/// The arguments of the `web` command.
#[derive(Debug)]
pub struct WebArgs {
    /// Target URL.
    pub url: String,
    /// Scan depth, 3 by default.
    pub depth: u32,
}

} // verus!
