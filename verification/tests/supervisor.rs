use bridge_supervisor::error::SupervisorError;
use bridge_supervisor::registry::Registry;
use bridge_supervisor::supervisor::{
    begin_restart, finish_restart, frame_line, shutdown, status, write_request,
};

#[derive(Debug, Clone, PartialEq, Eq)]
struct FakeHandle {
    pid: u32,
}

#[test]
fn new_registry_is_empty() {
    let registry: Registry<FakeHandle> = Registry::new();
    assert!(!registry.is_alive());
    assert_eq!(registry.current(), None);
    assert!(!status(&registry));
}

#[test]
fn install_replaces_and_returns_the_old_handle() {
    let mut registry = Registry::new();
    assert_eq!(registry.install(FakeHandle { pid: 1 }), None);
    assert_eq!(registry.install(FakeHandle { pid: 2 }), Some(FakeHandle { pid: 1 }));
    assert_eq!(registry.current(), Some(&FakeHandle { pid: 2 }));
    assert!(registry.is_alive());
}

#[test]
fn take_leaves_the_registry_empty() {
    let mut registry = Registry::new();
    registry.install(FakeHandle { pid: 5 });
    assert_eq!(registry.take(), Some(FakeHandle { pid: 5 }));
    assert!(!registry.is_alive());
    assert_eq!(registry.take(), None);
}

#[test]
fn frame_line_appends_one_line_feed() {
    assert_eq!(frame_line("ping"), b"ping\n".to_vec());
    assert_eq!(frame_line(""), b"\n".to_vec());
    assert_eq!(frame_line("a\nb"), b"a\nb\n".to_vec());
    assert_eq!(frame_line("é"), vec![0xC3, 0xA9, 0x0A]);
}

#[test]
fn write_without_a_process_fails_and_changes_nothing() {
    let registry: Registry<FakeHandle> = Registry::new();
    assert_eq!(write_request(&registry, "ping"), Err(SupervisorError::NoProcess));
    assert!(!status(&registry));
    assert_eq!(write_request(&registry, "again"), Err(SupervisorError::NoProcess));
}

#[test]
fn write_ping_sends_exactly_ping_and_a_line_feed() {
    let mut registry = Registry::new();
    registry.install(FakeHandle { pid: 42 });
    let (handle, bytes) = write_request(&registry, "ping").unwrap();
    assert_eq!(handle, &FakeHandle { pid: 42 });
    assert_eq!(bytes, vec![b'p', b'i', b'n', b'g', b'\n']);
    assert!(status(&registry));
}

#[test]
fn restart_on_a_running_handle() {
    let mut registry = Registry::new();
    registry.install(FakeHandle { pid: 10 });
    let old = begin_restart(&mut registry);
    assert_eq!(old, Some(FakeHandle { pid: 10 }));
    assert!(!status(&registry));
    assert_eq!(write_request(&registry, "x"), Err(SupervisorError::NoProcess));
    assert_eq!(finish_restart(&mut registry, Ok(FakeHandle { pid: 11 })), Ok(()));
    assert!(status(&registry));
    assert_eq!(registry.current(), Some(&FakeHandle { pid: 11 }));
}

#[test]
fn failed_restart_leaves_the_registry_empty() {
    let mut registry = Registry::new();
    registry.install(FakeHandle { pid: 10 });
    let old = begin_restart(&mut registry);
    assert_eq!(old, Some(FakeHandle { pid: 10 }));
    assert_eq!(
        finish_restart(&mut registry, Err(SupervisorError::AllStrategiesExhausted)),
        Err(SupervisorError::AllStrategiesExhausted)
    );
    assert!(!status(&registry));
    assert_eq!(registry.current(), None);
}

#[test]
fn restart_from_empty_installs_the_new_handle() {
    let mut registry: Registry<FakeHandle> = Registry::new();
    assert_eq!(begin_restart(&mut registry), None);
    assert_eq!(finish_restart(&mut registry, Ok(FakeHandle { pid: 3 })), Ok(()));
    assert_eq!(registry.current(), Some(&FakeHandle { pid: 3 }));
}

#[test]
fn a_series_of_restarts_keeps_only_the_latest_handle() {
    let mut registry: Registry<FakeHandle> = Registry::new();
    let mut terminated: Vec<u32> = Vec::new();
    for pid in 1..=5u32 {
        if let Some(old) = begin_restart(&mut registry) {
            terminated.push(old.pid);
        }
        let spawned = if pid == 3 {
            Err(SupervisorError::AllStrategiesExhausted)
        } else {
            Ok(FakeHandle { pid })
        };
        let outcome = finish_restart(&mut registry, spawned);
        if pid == 3 {
            assert_eq!(outcome, Err(SupervisorError::AllStrategiesExhausted));
            assert_eq!(registry.current(), None);
        } else {
            assert_eq!(outcome, Ok(()));
            assert_eq!(registry.current(), Some(&FakeHandle { pid }));
        }
    }
    assert_eq!(terminated, vec![1, 2, 4]);
}

#[test]
fn shutdown_hands_out_the_handle_once() {
    let mut registry = Registry::new();
    registry.install(FakeHandle { pid: 9 });
    assert_eq!(shutdown(&mut registry), Some(FakeHandle { pid: 9 }));
    assert!(!status(&registry));
    assert_eq!(shutdown(&mut registry), None);
    assert!(!status(&registry));
}

#[test]
fn shutdown_of_an_empty_registry_is_a_no_op() {
    let mut registry: Registry<FakeHandle> = Registry::new();
    assert_eq!(shutdown(&mut registry), None);
    assert_eq!(shutdown(&mut registry), None);
    assert!(!registry.is_alive());
}
