//! The command line of the scanner and the settings it gives.
use vstd::prelude::*;

use crate::command::Commands;
use crate::global::ScanContext;

verus! {

/// The command line of the scanner.
#[derive(Debug)]
pub struct Cli {
    /// Verbose mode: `Some(true)` when the flag is given.
    pub verbose: Option<bool>,
    pub command: Commands,
}

/// The scan settings that the command line gives: verbose only when asked.
pub fn build_global_scan_context(cli: &Cli) -> (c: ScanContext)
    ensures
        c.verbose == match cli.verbose {
            Some(v) => v,
            None => false,
        },
{
    let mut scan_context = ScanContext::default();
    if let Some(verbose) = cli.verbose {
        scan_context.verbose = verbose;
    }
    scan_context
}

} // verus!
