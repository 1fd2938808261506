use minetrace::api::error::{ApiError, BackendError, ErrorDetails, IoFailureKind};

#[test]
fn file_system_errors_are_classified_by_kind() {
    let missing = ApiError::from(BackendError::Io {
        operation: "resolve selected Minecraft location",
        path: "/gone".to_owned(),
        kind: IoFailureKind::NotFound,
    });
    assert_eq!(missing.code, "location_not_found");
    assert_eq!(missing.message, "That folder no longer exists or is unavailable.");
    assert!(!missing.retryable);
    match missing.details {
        Some(ErrorDetails::Io { operation, path }) => {
            assert_eq!(operation, "resolve selected Minecraft location");
            assert_eq!(path, "/gone");
        }
        _ => panic!("expected file-system details"),
    }
    let denied = ApiError::from(BackendError::Io {
        operation: "read",
        path: "/secret".to_owned(),
        kind: IoFailureKind::PermissionDenied,
    });
    assert_eq!(denied.code, "permission_denied");
    assert!(denied.retryable);
    let other = ApiError::from(BackendError::Io { operation: "read", path: "/x".to_owned(), kind: IoFailureKind::Other });
    assert_eq!(other.code, "filesystem_error");
    assert_eq!(other.message, "MineTrace could not inspect that folder.");
}

#[test]
fn refused_locations_carry_their_reason_and_score() {
    let error = ApiError::from(BackendError::InvalidLocation {
        path: "/tmp/x".to_owned(),
        reason: "No recognized Minecraft directory markers were found.".to_owned(),
        score: 12,
    });
    assert_eq!(error.code, "invalid_minecraft_location");
    assert!(!error.retryable);
    match error.details {
        Some(ErrorDetails::Location { path, reason, validation_score }) => {
            assert_eq!(path, "/tmp/x");
            assert_eq!(reason, "No recognized Minecraft directory markers were found.");
            assert_eq!(validation_score, 12);
        }
        _ => panic!("expected location details"),
    }
}

#[test]
fn database_and_background_failures() {
    let database = ApiError::from(BackendError::Database);
    assert_eq!(database.code, "database_error");
    assert!(database.retryable && database.details.is_none());
    let schema = ApiError::from(BackendError::MigrationChecksum { version: 3, name: "initial" });
    assert_eq!(schema.message, "MineTrace could not open its local database.");
    let background = ApiError::from(BackendError::BackgroundTask("worker stopped".to_owned()));
    assert_eq!(background.code, "background_task_failed");
    assert_eq!(background.message, "worker stopped");
    assert!(background.retryable);
    let invalid = ApiError::invalid_request("bad mode".to_owned());
    assert_eq!(invalid.code, "invalid_request");
    assert!(!invalid.retryable);
}
