use rmeter::engine::EngineStatus;

#[test]
fn default_status_is_idle() {
    let status = EngineStatus::default();
    assert_eq!(status, EngineStatus::Idle);
}

#[test]
fn display_idle() {
    assert_eq!(EngineStatus::Idle.to_string(), "idle");
}

#[test]
fn display_running() {
    assert_eq!(EngineStatus::Running.to_string(), "running");
}

#[test]
fn display_stopping() {
    assert_eq!(EngineStatus::Stopping.to_string(), "stopping");
}

#[test]
fn display_completed() {
    assert_eq!(EngineStatus::Completed.to_string(), "completed");
}

#[test]
fn display_error() {
    assert_eq!(EngineStatus::Error.to_string(), "error");
}

#[test]
fn clone_preserves_value() {
    let status = EngineStatus::Running;
    let cloned = status.clone();
    assert_eq!(status, cloned);
}

#[test]
fn equality_same_variant() {
    assert_eq!(EngineStatus::Idle, EngineStatus::Idle);
    assert_eq!(EngineStatus::Running, EngineStatus::Running);
}

#[test]
fn inequality_different_variants() {
    assert_ne!(EngineStatus::Idle, EngineStatus::Running);
    assert_ne!(EngineStatus::Running, EngineStatus::Completed);
    assert_ne!(EngineStatus::Stopping, EngineStatus::Error);
}

#[test]
fn as_str_agrees_with_to_string() {
    for status in [
        EngineStatus::Idle,
        EngineStatus::Running,
        EngineStatus::Stopping,
        EngineStatus::Completed,
        EngineStatus::Error,
    ] {
        assert_eq!(status.as_str(), status.to_string());
    }
}

#[test]
fn only_completed_and_error_are_terminal() {
    assert!(!EngineStatus::Idle.is_terminal());
    assert!(!EngineStatus::Running.is_terminal());
    assert!(!EngineStatus::Stopping.is_terminal());
    assert!(EngineStatus::Completed.is_terminal());
    assert!(EngineStatus::Error.is_terminal());
}
