//! The command line tool: what it is asked to do, and what it answers when
//! that succeeds.

use crate::pretty_error::render::{paint, painted, Colour};
use vstd::prelude::*;

verus! {

/// What the tool is asked to do.
#[derive(Debug)]
pub enum Command {
    /// Check the program in `file`.
    Check { file: String },
    /// Run the tests in `test_file` against the program in `file`.
    Test { file: String, test_file: String },
}

/// The options of the tool.
#[derive(Debug)]
pub struct Opt {
    pub no_ansi: bool,
    pub command: Command,
}

/// The answer to a command that succeeded.
pub open spec fn success_text(command: Command) -> Seq<char> {
    match command {
        Command::Check { .. } => "Code is syntactically valid"@,
        Command::Test { .. } => "Tests passed"@,
    }
}

/// The answer to a command that succeeded, green unless colors are off.
pub fn success_message(opt: &Opt) -> (res: String)
    ensures
        !opt.no_ansi ==> res@ == painted(Colour::Green, success_text(opt.command)),
        opt.no_ansi ==> res@ == success_text(opt.command),
{
    let msg = match opt.command {
        Command::Check { .. } => {
            proof {
                reveal_strlit("Code is syntactically valid");
            }
            "Code is syntactically valid"
        },
        Command::Test { .. } => {
            proof {
                reveal_strlit("Tests passed");
            }
            "Tests passed"
        },
    };
    if !opt.no_ansi {
        paint(Colour::Green, msg)
    } else {
        msg.to_owned()
    }
}

} // verus!
