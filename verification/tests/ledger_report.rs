use global_sync::ledger::{PackageInfo, StateChange, StateChanges};
use global_sync::names::{EnvironmentName, ExposedName};
use global_sync::state::{EnvChanges, EnvState, EnvStateEntry, NotChangedReason};

fn env(name: &str) -> EnvironmentName {
    EnvironmentName::from_string(name.to_string()).unwrap()
}

fn exposed(name: &str) -> ExposedName {
    ExposedName::from_string(name.to_string()).unwrap()
}

#[test]
fn new_with_env_has_no_changes() {
    let ledger = StateChanges::new_with_env(env("test-env"));
    assert!(!ledger.has_changed());
    let entries = ledger.changes();
    assert_eq!(entries.len(), 1);
    assert_eq!(entries[0].env.as_str(), "test-env");
    assert!(entries[0].changes.is_empty());
}

#[test]
fn insert_change_creates_and_appends() {
    let mut ledger = StateChanges::new_with_env(env("a"));
    ledger.insert_change(&env("a"), StateChange::AddedEnvironment);
    ledger.insert_change(&env("b"), StateChange::RemovedEnvironment);
    assert!(ledger.has_changed());
    let entries = ledger.changes();
    assert_eq!(entries.len(), 2);
    assert_eq!(entries[0].changes.len(), 1);
    assert_eq!(entries[1].env.as_str(), "b");
    assert_eq!(entries[1].changes.len(), 1);
}

#[test]
fn prune_keeps_only_from_last_environment_removal() {
    let mut ledger = StateChanges::new_with_env(env("a"));
    ledger.insert_change(&env("a"), StateChange::AddedExposed(exposed("x")));
    ledger.insert_change(&env("a"), StateChange::RemovedEnvironment);
    ledger.insert_change(&env("a"), StateChange::AddedExposed(exposed("y")));
    ledger.prune();
    let entries = ledger.changes();
    assert_eq!(entries[0].changes.len(), 2);
    assert!(matches!(entries[0].changes[0], StateChange::RemovedEnvironment));
    assert!(matches!(entries[0].changes[1], StateChange::AddedExposed(_)));
}

#[test]
fn prune_without_removal_keeps_everything() {
    let mut ledger = StateChanges::new_with_env(env("a"));
    ledger.insert_change(&env("a"), StateChange::AddedExposed(exposed("x")));
    ledger.insert_change(&env("a"), StateChange::UpdatedEnvironment);
    ledger.prune();
    let entries = ledger.changes();
    assert_eq!(entries[0].changes.len(), 2);
}

#[test]
fn merge_appends_per_environment_in_order() {
    let mut a = StateChanges::new_with_env(env("a"));
    a.insert_change(&env("a"), StateChange::AddedExposed(exposed("x")));
    let mut b = StateChanges::new_with_env(env("a"));
    b.insert_change(&env("a"), StateChange::AddedExposed(exposed("y")));
    b.insert_change(&env("c"), StateChange::AddedEnvironment);
    a.merge(b);
    let entries = a.changes();
    assert_eq!(entries.len(), 2);
    assert_eq!(entries[0].env.as_str(), "a");
    assert_eq!(entries[0].changes.len(), 2);
    assert!(matches!(&entries[0].changes[1], StateChange::AddedExposed(n) if n.as_str() == "y"));
    assert_eq!(entries[1].env.as_str(), "c");
}

#[test]
fn merge_groupings_agree() {
    // the same three ledgers merged in either association give the same
    // per-environment sequences
    let build = || {
        let mut a = StateChanges::new_with_env(env("e"));
        a.insert_change(&env("e"), StateChange::AddedExposed(exposed("x")));
        let mut b = StateChanges::new_with_env(env("e"));
        b.insert_change(&env("e"), StateChange::RemovedExposed(exposed("y")));
        let mut c = StateChanges::new_with_env(env("f"));
        c.insert_change(&env("f"), StateChange::AddedEnvironment);
        (a, b, c)
    };
    let (mut a1, b1, c1) = build();
    a1.merge(b1);
    a1.merge(c1);
    let left: Vec<String> = a1.report();

    let (a2, mut b2, c2) = build();
    b2.merge(c2);
    let mut a2 = a2;
    a2.merge(b2);
    let right: Vec<String> = a2.report();
    assert_eq!(left, right);
}

#[test]
fn report_groups_adjacent_adds_only() {
    let mut ledger = StateChanges::new_with_env(env("test"));
    ledger.insert_change(&env("test"), StateChange::AddedExposed(exposed("a")));
    ledger.insert_change(&env("test"), StateChange::AddedExposed(exposed("b")));
    ledger.insert_change(&env("test"), StateChange::RemovedExposed(exposed("c")));
    ledger.insert_change(&env("test"), StateChange::AddedExposed(exposed("d")));
    let lines = ledger.report();
    assert_eq!(
        lines,
        vec![
            "Exposed executables from environment `test`:".to_string(),
            "   - `a`".to_string(),
            "   - `b`".to_string(),
            "Removed exposed executable `c` from environment `test`.".to_string(),
            "Exposed executable `d` from environment `test`.".to_string(),
        ]
    );
}

#[test]
fn report_groups_updated_runs_uniformly() {
    let mut ledger = StateChanges::new_with_env(env("test"));
    ledger.insert_change(&env("test"), StateChange::UpdatedExposed(exposed("u1")));
    ledger.insert_change(&env("test"), StateChange::UpdatedExposed(exposed("u2")));
    ledger.insert_change(&env("test"), StateChange::AddedExposed(exposed("a")));
    let lines = ledger.report();
    assert_eq!(
        lines,
        vec![
            "Updated executables of environment `test`:".to_string(),
            "   - `u1`".to_string(),
            "   - `u2`".to_string(),
            "Exposed executable `a` from environment `test`.".to_string(),
        ]
    );
}

#[test]
fn report_package_and_environment_lines() {
    let mut ledger = StateChanges::new_with_env(env("test"));
    ledger.insert_change(&env("test"), StateChange::AddedEnvironment);
    ledger.insert_change(
        &env("test"),
        StateChange::AddedPackage(PackageInfo::new("python".to_string(), "3.13.0".to_string())),
    );
    ledger.insert_change(&env("test"), StateChange::UpdatedEnvironment);
    let lines = ledger.report();
    assert_eq!(
        lines,
        vec![
            "Added environment `test`.".to_string(),
            "Added package `python`=`3.13.0` to environment `test`.".to_string(),
            "Updated environment `test`.".to_string(),
        ]
    );
}

#[test]
fn report_prunes_before_rendering() {
    let mut ledger = StateChanges::new_with_env(env("test"));
    ledger.insert_change(&env("test"), StateChange::AddedExposed(exposed("x")));
    ledger.insert_change(&env("test"), StateChange::RemovedEnvironment);
    let lines = ledger.report();
    assert_eq!(lines, vec!["Removed environment `test`.".to_string()]);
}

#[test]
fn env_state_texts() {
    assert_eq!(NotChangedReason::AlreadyInstalled.as_str(), "already installed");
    assert_eq!(EnvState::Installed.as_str(), "installed");
    assert_eq!(
        EnvState::NotChanged(NotChangedReason::AlreadyInstalled).as_str(),
        "already installed"
    );
    let mut outcomes = EnvChanges::new();
    assert!(outcomes.changes.is_empty());
    outcomes.changes.push(EnvStateEntry { env: env("a"), state: EnvState::Installed });
    assert_eq!(outcomes.changes[0].state.as_str(), "installed");
}
