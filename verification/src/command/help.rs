//! The `help` command.
use vstd::prelude::*;

use crate::text::{lowercase, to_lowercase_string};

verus! {

/// The arguments of the `help` command.
#[derive(Debug)]
pub struct HelpArgs {
    /// The command to show help for.
    pub command: Option<String>,
}

/// Which command's help is shown.
#[derive(Debug, Clone, Copy, PartialEq, Eq)]
pub enum HelpTopic {
    Port,
    Web,
    Sys,
    /// A name that is no command.
    Unknown,
}

/// The topic for a command name, compared in lower case.
pub open spec fn help_topic(cmd: Seq<char>) -> HelpTopic {
    let c = lowercase(cmd);
    if c == "port"@ {
        HelpTopic::Port
    } else if c == "web"@ {
        HelpTopic::Web
    } else if c == "sys"@ {
        HelpTopic::Sys
    } else {
        HelpTopic::Unknown
    }
}

/// Which help `show_command_help(cmd)` shows. The names are compared in lower
/// case, so a name shows the same help as its lower case.
pub fn command_help_topic(cmd: &str) -> (t: HelpTopic)
    ensures
        t == help_topic(cmd@),
        t != HelpTopic::Unknown ==> help_topic(lowercase(cmd@)) == t,
{
    proof {
        reveal_strlit("port");
        reveal_strlit("web");
        reveal_strlit("sys");
    }
    let c = to_lowercase_string(cmd);
    let port = to_lowercase_string("port");
    let web = to_lowercase_string("web");
    let sys = to_lowercase_string("sys");
    assert(port@ =~= "port"@);
    assert(web@ =~= "web"@);
    assert(sys@ =~= "sys"@);
    if c == port {
        HelpTopic::Port
    } else if c == web {
        HelpTopic::Web
    } else if c == sys {
        HelpTopic::Sys
    } else {
        HelpTopic::Unknown
    }
}

} // verus!
