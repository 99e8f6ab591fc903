use rnm::ConfirmAction;
use rnm::Error;
use rnm::PromptState;
use rnm::parse_confirm_action;
use rnm::prompt_step;
use rnm::resolve_confirmation;

#[test]
fn test_parse_accepts_each_action_case_insensitive() {
    assert_eq!(parse_confirm_action("y"), Ok(ConfirmAction::RM));
    assert_eq!(parse_confirm_action("Y"), Ok(ConfirmAction::RM));
    assert_eq!(parse_confirm_action("n"), Ok(ConfirmAction::NONE));
    assert_eq!(parse_confirm_action("N"), Ok(ConfirmAction::NONE));
    assert_eq!(parse_confirm_action("l"), Ok(ConfirmAction::LIST));
    assert_eq!(parse_confirm_action("L"), Ok(ConfirmAction::LIST));
}

#[test]
fn test_parse_rejects_unrecognized_input() {
    assert_eq!(parse_confirm_action("x"), Err(Error::InvalidConfirmationInput));
    assert_eq!(parse_confirm_action(""), Err(Error::InvalidConfirmationInput));
    assert_eq!(parse_confirm_action("yes"), Err(Error::InvalidConfirmationInput));
    assert_eq!(parse_confirm_action("no"), Err(Error::InvalidConfirmationInput));
}

#[test]
fn test_confirmation_resolves_after_one_reprompt() {
    let inputs = vec![String::from("x"), String::from("Y")];
    assert_eq!(resolve_confirmation(&inputs), Some(ConfirmAction::RM));
}

#[test]
fn test_confirmation_resolves_list() {
    let inputs = vec![String::from("l")];
    assert_eq!(resolve_confirmation(&inputs), Some(ConfirmAction::LIST));
}

#[test]
fn test_confirmation_resolves_abort() {
    let inputs = vec![String::from("n")];
    assert_eq!(resolve_confirmation(&inputs), Some(ConfirmAction::NONE));
}

#[test]
fn test_confirmation_end_of_input_is_unresolved() {
    assert_eq!(resolve_confirmation(&Vec::new()), None);
    let inputs = vec![String::from("x"), String::from("maybe"), String::from("")];
    assert_eq!(resolve_confirmation(&inputs), None);
}

#[test]
fn test_prompt_step_keeps_waiting_on_invalid_line() {
    let state = prompt_step(PromptState::AwaitingInput, "x");
    assert_eq!(state, PromptState::AwaitingInput);
}

#[test]
fn test_prompt_step_resolves_and_stays_resolved() {
    let state = prompt_step(PromptState::AwaitingInput, "n");
    assert_eq!(state, PromptState::Resolved(ConfirmAction::NONE));
    let state = prompt_step(state, "y");
    assert_eq!(state, PromptState::Resolved(ConfirmAction::NONE));
}

#[test]
fn test_confirm_action_parses_from_str() {
    assert_eq!("y".parse::<ConfirmAction>(), Ok(ConfirmAction::RM));
    assert_eq!("N".parse::<ConfirmAction>(), Ok(ConfirmAction::NONE));
    assert_eq!("l".parse::<ConfirmAction>(), Ok(ConfirmAction::LIST));
    assert_eq!("q".parse::<ConfirmAction>(), Err(()));
}
