use rmeter::error::RmeterError;

#[test]
fn validation_error_display() {
    let err = RmeterError::Validation("field X is required".to_string());
    assert_eq!(err.to_string(), "Validation error: field X is required");
}

#[test]
fn engine_error_display() {
    let err = RmeterError::Engine("timeout".to_string());
    assert_eq!(err.to_string(), "Engine error: timeout");
}

#[test]
fn plan_not_found_display() {
    let err = RmeterError::PlanNotFound("abc-123".to_string());
    assert_eq!(err.to_string(), "Plan not found: abc-123");
}

#[test]
fn internal_error_display() {
    let err = RmeterError::Internal("unexpected state".to_string());
    assert_eq!(err.to_string(), "Internal error: unexpected state");
}

#[test]
fn websocket_error_display() {
    let err = RmeterError::WebSocket("connection refused".to_string());
    assert_eq!(err.to_string(), "WebSocket error: connection refused");
}

#[test]
fn io_error_from_std() {
    let io_err = std::io::Error::new(std::io::ErrorKind::NotFound, "file not found");
    let err = RmeterError::Io(io_err.to_string());
    let msg = err.to_string();
    assert!(msg.contains("IO error"));
    assert!(msg.contains("file not found"));
}

#[test]
fn serde_error_from_json() {
    let json_err = serde_json::from_str::<serde_json::Value>("not json").unwrap_err();
    let err = RmeterError::Serde(json_err.to_string());
    assert!(err.to_string().contains("Serialization error"));
}

#[test]
fn http_error_display() {
    let err = RmeterError::Http("connection reset".to_string());
    assert_eq!(err.to_string(), "HTTP error: connection reset");
}

#[test]
fn error_is_debug() {
    let err = RmeterError::Validation("test".to_string());
    let debug = format!("{:?}", err);
    assert!(debug.contains("Validation"));
}
