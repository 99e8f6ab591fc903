//! The interactive confirmation prompt: a two-state machine that turns lines
//! of console input into a typed action.
//!
//! A line parses as an action when it is one of `y`, `n` or `l`,
//! case-insensitive.  Any other line leaves the prompt awaiting input; the
//! machine loops until a line parses or the input is exhausted.
use vstd::prelude::*;

use crate::errors::Error;

verus! {

/// The action chosen at the confirmation prompt: delete the located
/// directories (`RM`), list them (`LIST`), or do nothing (`NONE`).
#[derive(Debug, Clone, Copy, PartialEq, Eq, Structural)]
pub enum ConfirmAction {
    RM,
    LIST,
    NONE,
}

/// What a single line of input means: `y`/`Y` confirms deletion, `n`/`N`
/// aborts, `l`/`L` asks for a listing; everything else is invalid.
pub open spec fn spec_parse_action(s: Seq<char>) -> Result<ConfirmAction, Error> {
    if s == "y"@ || s == "Y"@ {
        Ok(ConfirmAction::RM)
    } else if s == "n"@ || s == "N"@ {
        Ok(ConfirmAction::NONE)
    } else if s == "l"@ || s == "L"@ {
        Ok(ConfirmAction::LIST)
    } else {
        Err(Error::InvalidConfirmationInput)
    }
}

/// Parses one line of input (newline already stripped) into an action.
pub fn parse_confirm_action(s: &str) -> (r: Result<ConfirmAction, Error>)
    ensures
        r == spec_parse_action(s@),
{
    proof {
        reveal_strlit("y");
        reveal_strlit("Y");
        reveal_strlit("n");
        reveal_strlit("N");
        reveal_strlit("l");
        reveal_strlit("L");
    }
    if s.unicode_len() == 1 {
        let c = s.get_char(0);
        if c == 'y' {
            proof {
                assert(s@ =~= "y"@);
            }
            Ok(ConfirmAction::RM)
        } else if c == 'Y' {
            proof {
                assert(s@ =~= "Y"@);
            }
            Ok(ConfirmAction::RM)
        } else if c == 'n' {
            proof {
                assert(s@ =~= "n"@);
            }
            Ok(ConfirmAction::NONE)
        } else if c == 'N' {
            proof {
                assert(s@ =~= "N"@);
            }
            Ok(ConfirmAction::NONE)
        } else if c == 'l' {
            proof {
                assert(s@ =~= "l"@);
            }
            Ok(ConfirmAction::LIST)
        } else if c == 'L' {
            proof {
                assert(s@ =~= "L"@);
            }
            Ok(ConfirmAction::LIST)
        } else {
            Err(Error::InvalidConfirmationInput)
        }
    } else {
        Err(Error::InvalidConfirmationInput)
    }
}

impl core::str::FromStr for ConfirmAction {
    type Err = ();

    fn from_str(s: &str) -> Result<ConfirmAction, ()> {
        match parse_confirm_action(s) {
            Ok(a) => Ok(a),
            Err(_) => Err(()),
        }
    }
}

/// The state of the confirmation prompt: still waiting for a valid line, or
/// resolved to an action.
#[derive(Debug, Clone, Copy, PartialEq, Eq, Structural)]
pub enum PromptState {
    AwaitingInput,
    Resolved(ConfirmAction),
}

/// One transition of the prompt machine: a resolved prompt stays resolved; an
/// awaiting prompt resolves on a valid line and otherwise keeps waiting.
pub open spec fn spec_prompt_step(state: PromptState, line: Seq<char>) -> PromptState {
    match state {
        PromptState::Resolved(_) => state,
        PromptState::AwaitingInput => match spec_parse_action(line) {
            Ok(a) => PromptState::Resolved(a),
            Err(_) => PromptState::AwaitingInput,
        },
    }
}

/// Feeds one line of input to the prompt machine.
pub fn prompt_step(state: PromptState, line: &str) -> (r: PromptState)
    ensures
        r == spec_prompt_step(state, line@),
{
    match state {
        PromptState::Resolved(a) => PromptState::Resolved(a),
        PromptState::AwaitingInput => match parse_confirm_action(line) {
            Ok(a) => PromptState::Resolved(a),
            Err(_) => PromptState::AwaitingInput,
        },
    }
}

/// The action that a whole sequence of input lines resolves to: the first
/// line that parses decides; if no line parses, the input is exhausted and no
/// action is resolved.
pub open spec fn spec_resolve_confirmation(lines: Seq<Seq<char>>) -> Option<ConfirmAction>
    decreases lines.len(),
{
    if lines.len() == 0 {
        None
    } else {
        match spec_parse_action(lines[0]) {
            Ok(a) => Some(a),
            Err(_) => spec_resolve_confirmation(lines.drop_first()),
        }
    }
}

/// Runs the prompt machine over a sequence of input lines, resolving to the
/// action of the first valid line, or to nothing when the input runs out.
pub fn resolve_confirmation(inputs: &Vec<String>) -> (r: Option<ConfirmAction>)
    ensures
        r == spec_resolve_confirmation(inputs.deep_view()),
{
    let ghost dv = inputs.deep_view();
    proof {
        assert(dv.skip(0) =~= dv);
    }
    let mut state = PromptState::AwaitingInput;
    let mut i: usize = 0;
    while i < inputs.len()
        invariant
            0 <= i <= inputs@.len(),
            dv == inputs.deep_view(),
            dv.len() == inputs@.len(),
            state is AwaitingInput,
            spec_resolve_confirmation(dv) == spec_resolve_confirmation(dv.skip(i as int)),
        decreases inputs@.len() - i,
    {
        proof {
            assert(dv[i as int] == inputs@[i as int]@);
            assert(dv.skip(i as int)[0] == dv[i as int]);
        }
        state = prompt_step(state, inputs[i].as_str());
        match state {
            PromptState::Resolved(a) => {
                return Some(a);
            },
            PromptState::AwaitingInput => {
                proof {
                    assert(dv.skip(i as int).drop_first() =~= dv.skip(i as int + 1));
                }
            },
        }
        i += 1;
    }
    proof {
        assert(dv.skip(i as int).len() == 0);
    }
    None
}

} // verus!
