use mofi::launch::{alias_outcome, find_alias, open_outcome, plan_launch, LaunchAction, SpawnOutcome};

fn aliases(entries: &[(&str, &str)]) -> Vec<(String, String)> {
    entries
        .iter()
        .map(|(k, v)| (k.to_string(), v.to_string()))
        .collect()
}

#[test]
fn alias_match_is_case_insensitive_and_ignores_path() {
    let al = aliases(&[("Term", "open -a Terminal")]);
    let action = plan_launch(Some(&al), "term", "/no/such/path at all", false);
    assert_eq!(action, LaunchAction::RunAlias("open -a Terminal".to_string()));
    let action = plan_launch(Some(&al), "TERM", "/somewhere/else", true);
    assert_eq!(action, LaunchAction::RunAlias("open -a Terminal".to_string()));
}

#[test]
fn missing_path_without_alias_fails_with_message() {
    let al = aliases(&[("term", "echo hi")]);
    let action = plan_launch(Some(&al), "Browser", "/Applications/Browser.app", false);
    match action {
        LaunchAction::Fail(msg) => {
            assert_eq!(msg, "App not found at '/Applications/Browser.app'");
            assert!(msg.contains("not found"));
            assert!(msg.contains("/Applications/Browser.app"));
        },
        other => panic!("expected a failure, got {:?}", other),
    }
}

#[test]
fn existing_path_without_alias_is_opened() {
    let action = plan_launch(None, "Browser", "/Applications/Browser.app", true);
    assert_eq!(
        action,
        LaunchAction::OpenPath("/Applications/Browser.app".to_string())
    );
}

#[test]
fn find_alias_first_match_wins() {
    let al = aliases(&[("a", "first"), ("b", "second"), ("A", "third")]);
    assert_eq!(find_alias(&al, "a"), Some("first".to_string()));
    assert_eq!(find_alias(&al, "B"), Some("second".to_string()));
    assert_eq!(find_alias(&al, "c"), None);
}

#[test]
fn alias_outcome_messages() {
    assert_eq!(
        alias_outcome(&SpawnOutcome::Exited(true)),
        Ok("Command executed successfully".to_string())
    );
    assert_eq!(
        alias_outcome(&SpawnOutcome::Exited(false)),
        Err("Alias command failed: exited with non-zero code".to_string())
    );
    assert_eq!(
        alias_outcome(&SpawnOutcome::SpawnFailed("no shell".to_string())),
        Err("Failed to run alias command: no shell".to_string())
    );
}

#[test]
fn open_outcome_messages() {
    assert_eq!(
        open_outcome(&SpawnOutcome::Exited(true)),
        Ok("App opened successfully".to_string())
    );
    assert_eq!(
        open_outcome(&SpawnOutcome::Exited(false)),
        Err("Failed to open app: exited with non-zero code".to_string())
    );
    assert_eq!(
        open_outcome(&SpawnOutcome::SpawnFailed("missing opener".to_string())),
        Err("Failed to launch app: missing opener".to_string())
    );
}

#[test]
fn non_ascii_names_must_match_exactly() {
    let al = aliases(&[("Caf\u{e9}", "open cafe")]);
    assert_eq!(find_alias(&al, "caf\u{e9}"), Some("open cafe".to_string()));
    assert_eq!(find_alias(&al, "caf\u{c9}"), None);
}
