use bridge_supervisor::error::SupervisorError;
use bridge_supervisor::launch::{candidates, SpawnEnvironment, Strategy};
use bridge_supervisor::resolver::{Resolution, SpawnResolver};

fn full_environment() -> SpawnEnvironment {
    SpawnEnvironment {
        override_command: Some("fake-bridge --quiet".to_string()),
        local_entry: Some("/app/bridge/dist/index.js".to_string()),
        sibling_entry: None,
        shell_wrapped: false,
    }
}

#[test]
fn override_that_spawns_ends_the_resolution() {
    let mut resolver = SpawnResolver::for_environment(&full_environment());
    let first = resolver.next_attempt().cloned().unwrap();
    assert_eq!(first.strategy, Strategy::Override);
    assert_eq!(first.program, "fake-bridge");
    assert_eq!(first.args, vec!["--quiet".to_string()]);
    resolver.record(true);
    assert_eq!(resolver.resolution(), Resolution::Spawned(0));
    assert_eq!(resolver.next_attempt(), None);
    assert_eq!(resolver.attempts(), 1);
    assert_eq!(resolver.failure(), None);
}

#[test]
fn reports_after_success_change_nothing() {
    let mut resolver = SpawnResolver::for_environment(&full_environment());
    resolver.record(true);
    resolver.record(false);
    resolver.record(true);
    assert_eq!(resolver.resolution(), Resolution::Spawned(0));
    assert_eq!(resolver.attempts(), 1);
    assert_eq!(resolver.next_attempt(), None);
}

#[test]
fn plans_are_offered_in_order_until_one_spawns() {
    let env = full_environment();
    let plans = candidates(&env);
    let mut resolver = SpawnResolver::new(plans.clone());
    assert_eq!(resolver.resolution(), Resolution::Pending);
    assert_eq!(resolver.next_attempt(), Some(&plans[0]));
    resolver.record(false);
    assert_eq!(resolver.next_attempt(), Some(&plans[1]));
    resolver.record(false);
    assert_eq!(resolver.next_attempt(), Some(&plans[2]));
    assert_eq!(plans[2].strategy, Strategy::DevTaskLocal);
    resolver.record(true);
    assert_eq!(resolver.resolution(), Resolution::Spawned(2));
    assert_eq!(resolver.attempts(), 3);
    assert_eq!(resolver.next_attempt(), None);
}

#[test]
fn asking_twice_offers_the_same_plan() {
    let resolver = SpawnResolver::for_environment(&full_environment());
    let a = resolver.next_attempt().cloned();
    let b = resolver.next_attempt().cloned();
    assert_eq!(a, b);
    assert_eq!(resolver.attempts(), 0);
}

#[test]
fn nothing_available_exhausts_all_strategies() {
    let env = SpawnEnvironment {
        override_command: None,
        local_entry: None,
        sibling_entry: None,
        shell_wrapped: false,
    };
    let mut resolver = SpawnResolver::for_environment(&env);
    let mut tried: Vec<Strategy> = Vec::new();
    while let Some(plan) = resolver.next_attempt() {
        tried.push(plan.strategy);
        resolver.record(false);
    }
    assert_eq!(tried, vec![Strategy::DevTaskLocal, Strategy::DevTaskSibling]);
    assert_eq!(resolver.resolution(), Resolution::Exhausted);
    let failure = resolver.failure().unwrap();
    assert_eq!(failure, SupervisorError::AllStrategiesExhausted);
    assert_eq!(
        failure.message(),
        "All bridge spawn attempts failed. Ensure BRIDGE_DEV_CMD, pnpm or node is available and bridge/dist/index.js exists."
    );
}

#[test]
fn no_plans_at_all_is_exhausted_at_once() {
    let mut resolver = SpawnResolver::new(Vec::new());
    assert_eq!(resolver.next_attempt(), None);
    assert_eq!(resolver.resolution(), Resolution::Exhausted);
    resolver.record(true);
    assert_eq!(resolver.resolution(), Resolution::Exhausted);
    assert_eq!(resolver.attempts(), 0);
    assert_eq!(resolver.failure(), Some(SupervisorError::AllStrategiesExhausted));
}

#[test]
fn failure_is_none_while_pending() {
    let mut resolver = SpawnResolver::for_environment(&full_environment());
    assert_eq!(resolver.failure(), None);
    resolver.record(false);
    assert_eq!(resolver.failure(), None);
    assert_eq!(resolver.resolution(), Resolution::Pending);
}

#[test]
fn error_messages() {
    assert_eq!(SupervisorError::NoProcess.message(), "bridge not available");
    assert_eq!(SupervisorError::IoFailure("Broken pipe (os error 32)".to_string()).message(), "Broken pipe (os error 32)");
    assert_eq!(
        SupervisorError::spawn_attempt_failed("node", "No such file or directory (os error 2)").message(),
        "failed to spawn 'node': No such file or directory (os error 2)"
    );
}

#[test]
fn spawn_attempt_failed_keeps_program_and_reason() {
    assert_eq!(
        SupervisorError::spawn_attempt_failed("pnpm", "not found"),
        SupervisorError::SpawnAttemptFailed {
            program: "pnpm".to_string(),
            reason: "not found".to_string(),
        }
    );
}

#[test]
fn from_io_maps_failure_to_io_failure() {
    assert_eq!(SupervisorError::from_io(Ok(())), Ok(()));
    assert_eq!(
        SupervisorError::from_io(Err("Broken pipe".to_string())),
        Err(SupervisorError::IoFailure("Broken pipe".to_string()))
    );
}
