use rnm::ConfirmAction;
use rnm::Error;
use rnm::Outcome;
use rnm::apply;

fn batch() -> Vec<String> {
    vec![
        String::from("/base/app_a/node_modules"),
        String::from("/base/app_b/node_modules"),
        String::from("/base/app_c/node_modules"),
    ]
}

#[test]
fn test_delete_batch_reports_concurrent_removal_individually() {
    // One of the three paths disappeared before its removal executed: its
    // outcome is a DeletionError, and the other two still succeed.
    let paths = batch();
    let removals: Vec<Result<(), String>> = vec![
        Ok(()),
        Err(String::from("No such file or directory")),
        Ok(()),
    ];
    let outcomes = apply(ConfirmAction::RM, &paths, &removals);
    assert_eq!(outcomes.len(), 3);
    let successes = outcomes
        .iter()
        .filter(|o| matches!(o, Outcome::Success { .. }))
        .count();
    let failures = outcomes
        .iter()
        .filter(|o| matches!(o, Outcome::Failure { .. }))
        .count();
    assert_eq!(successes, 2);
    assert_eq!(failures, 1);
    assert_eq!(
        outcomes[1],
        Outcome::Failure {
            path: String::from("/base/app_b/node_modules"),
            error: Error::DeletionError {
                path: String::from("/base/app_b/node_modules"),
                detail: String::from("No such file or directory"),
            },
        }
    );
    assert_eq!(outcomes[0], Outcome::Success { path: String::from("/base/app_a/node_modules") });
    assert_eq!(outcomes[2], Outcome::Success { path: String::from("/base/app_c/node_modules") });
}

#[test]
fn test_delete_batch_all_succeed() {
    let paths = batch();
    let removals: Vec<Result<(), String>> = vec![Ok(()), Ok(()), Ok(())];
    let outcomes = apply(ConfirmAction::RM, &paths, &removals);
    assert_eq!(
        outcomes,
        vec![
            Outcome::Success { path: String::from("/base/app_a/node_modules") },
            Outcome::Success { path: String::from("/base/app_b/node_modules") },
            Outcome::Success { path: String::from("/base/app_c/node_modules") },
        ]
    );
}

#[test]
fn test_list_action_reports_every_path_as_success() {
    let paths = batch();
    let outcomes = apply(ConfirmAction::LIST, &paths, &Vec::new());
    assert_eq!(
        outcomes,
        vec![
            Outcome::Success { path: String::from("/base/app_a/node_modules") },
            Outcome::Success { path: String::from("/base/app_b/node_modules") },
            Outcome::Success { path: String::from("/base/app_c/node_modules") },
        ]
    );
}

#[test]
fn test_abort_action_reports_nothing() {
    let paths = batch();
    let outcomes = apply(ConfirmAction::NONE, &paths, &Vec::new());
    assert!(outcomes.is_empty());
}
