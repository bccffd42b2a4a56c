use vstd::prelude::*;

verus! {

/// Why a program cannot be turned into hardware.
#[derive(Debug, Clone, Copy, PartialEq, Eq, Structural)]
pub enum SynthError {
    /// The next state depends on an item that is not clocked.
    UnclockedGotoDependency,
    /// The first state jumps on a condition.
    ConditionalGotoInFirstState,
}

/// The text of a message.
pub open spec fn synth_error_text(e: SynthError) -> Seq<char> {
    match e {
        SynthError::UnclockedGotoDependency => seq![
            'n', 'e', 'x', 't', ' ', 's', 't', 'a', 't', 'e', ' ', 'd', 'e', 'p', 'e', 'n', 'd', 's',
            ' ', 'o', 'n', ' ', 'a', 'n', ' ', 'u', 'n', 'c', 'l', 'o', 'c', 'k', 'e', 'd', ' ',
            'i', 't', 'e', 'm',
        ],
        SynthError::ConditionalGotoInFirstState => seq![
            'c', 'o', 'n', 'd', 'i', 't', 'i', 'o', 'n', 'a', 'l', ' ', 'g', 'o', 't', 'o', ' ',
            'i', 'n', ' ', 'f', 'i', 'r', 's', 't', ' ', 's', 't', 'a', 't', 'e',
        ],
    }
}

impl SynthError {
    /// The message of the error.
    pub fn message(&self) -> (res: &'static str)
        ensures
            res@ == synth_error_text(*self),
    {
        match self {
            SynthError::UnclockedGotoDependency => {
                proof {
                    reveal_strlit("next state depends on an unclocked item");
                }
                "next state depends on an unclocked item"
            },
            SynthError::ConditionalGotoInFirstState => {
                proof {
                    reveal_strlit("conditional goto in first state");
                }
                "conditional goto in first state"
            },
        }
    }
}

} // verus!
