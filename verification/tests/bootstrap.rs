use std::io;

use ttd::bootstrap::{is_structural_config_error, is_structural_kind, IoKind, LaunchMode, LaunchStep};
use ttd::config::AppConfig;

#[test]
fn invalid_input_is_treated_as_structural_config_error() {
    let error = io::Error::new(io::ErrorKind::InvalidInput, "bad task dir");

    assert!(is_structural_config_error(&error));
}

#[test]
fn permission_denied_is_not_treated_as_structural_config_error() {
    let error = io::Error::new(io::ErrorKind::PermissionDenied, "cannot write");

    assert!(!is_structural_config_error(&error));
}

#[test]
fn only_invalid_input_kind_is_structural() {
    assert!(is_structural_kind(IoKind::InvalidInput));
    assert!(!is_structural_kind(IoKind::NotFound));
    assert!(!is_structural_kind(IoKind::PermissionDenied));
    assert!(!is_structural_kind(IoKind::Other));
}

#[test]
fn missing_or_malformed_config_starts_welcome() {
    assert!(matches!(
        LaunchMode::from_disk(Err(IoKind::NotFound)),
        LaunchStep::Ready(LaunchMode::Welcome)
    ));
    assert!(matches!(
        LaunchMode::from_disk(Err(IoKind::InvalidInput)),
        LaunchStep::Ready(LaunchMode::Welcome)
    ));
    assert!(matches!(LaunchMode::from_disk(Err(IoKind::PermissionDenied)), LaunchStep::Fail));
}

#[test]
fn loaded_config_checks_task_dir_then_starts_main() {
    let config = AppConfig::new("/tmp/tasks");
    match LaunchMode::from_disk(Ok(config.clone())) {
        LaunchStep::CheckTaskDir(c) => assert_eq!(c, config),
        _ => panic!("expected a task directory check"),
    }
    match LaunchMode::after_task_dir_check(config.clone(), Ok(())) {
        LaunchStep::Ready(LaunchMode::Main(c)) => assert_eq!(c.task_dir, "/tmp/tasks"),
        _ => panic!("expected main mode"),
    }
    assert!(matches!(
        LaunchMode::after_task_dir_check(config.clone(), Err(IoKind::InvalidInput)),
        LaunchStep::Ready(LaunchMode::Welcome)
    ));
    assert!(matches!(
        LaunchMode::after_task_dir_check(config, Err(IoKind::Other)),
        LaunchStep::Fail
    ));
}
