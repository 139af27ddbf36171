//! The sub-commands of the scanner.
pub mod help;
pub mod port;
pub mod sys;
pub mod web;

pub use crate::command::help::HelpArgs;
pub use crate::command::port::PortArgs;
pub use crate::command::sys::SysArgs;
pub use crate::command::web::WebArgs;

use vstd::prelude::*;

verus! {

/// A sub-command with its arguments.
#[derive(Debug)]
pub enum Commands {
    /// Port scan.
    Port(PortArgs),
    /// Web scan.
    Web(WebArgs),
    /// System scan.
    Sys(SysArgs),
    /// Help.
    Help(HelpArgs),
}

} // verus!
