//! The errors the interface receives: a stable code, a message a person can
//! act on, whether trying again may help, and the details behind it.

use vstd::prelude::*;

verus! {

/// How a file-system operation failed.
#[derive(Clone, Copy, PartialEq, Eq, Debug, Structural)]
pub enum IoFailureKind {
    NotFound,
    PermissionDenied,
    Other,
}

/// What went wrong in the backend, as the interface needs to know it.
#[derive(Debug)]
pub enum BackendError {
    /// The archive database failed.
    Database,
    /// A file-system operation failed on a path.
    Io { operation: &'static str, path: String, kind: IoFailureKind },
    /// A directory is not a supported Minecraft location.
    InvalidLocation { path: String, reason: String, score: u8 },
    /// A stored schema migration does not match its checksum.
    MigrationChecksum { version: i64, name: &'static str },
    /// Background work failed, with a description.
    BackgroundTask(String),
}

/// The details an error carries.
#[derive(Debug)]
pub enum ErrorDetails {
    Io { operation: &'static str, path: String },
    Location { path: String, reason: String, validation_score: u8 },
}

/// An error as the interface receives it.
#[derive(Debug)]
pub struct ApiError {
    pub code: &'static str,
    pub message: String,
    pub retryable: bool,
    pub details: Option<ErrorDetails>,
}

pub enum DetailsView {
    Io { operation: Seq<char>, path: Seq<char> },
    Location { path: Seq<char>, reason: Seq<char>, validation_score: u8 },
}

pub struct ApiErrorView {
    pub code: Seq<char>,
    pub message: Seq<char>,
    pub retryable: bool,
    pub details: Option<DetailsView>,
}

pub open spec fn details_view(d: ErrorDetails) -> DetailsView {
    match d {
        ErrorDetails::Io { operation, path } => DetailsView::Io { operation: operation@, path: path@ },
        ErrorDetails::Location { path, reason, validation_score } => DetailsView::Location {
            path: path@,
            reason: reason@,
            validation_score,
        },
    }
}

impl View for ApiError {
    type V = ApiErrorView;

    open spec fn view(&self) -> ApiErrorView {
        ApiErrorView {
            code: self.code@,
            message: self.message@,
            retryable: self.retryable,
            details: match self.details {
                Some(d) => Some(details_view(d)),
                None => None,
            },
        }
    }
}

/// The interface's form of a backend error: file-system failures by kind,
/// with the operation and path; refused locations with the reason and
/// score; database and schema failures alike; background failures with
/// their description.
pub open spec fn api_error_spec(error: BackendError) -> ApiErrorView {
    match error {
        BackendError::Io { operation, path, kind } => ApiErrorView {
            code: match kind {
                IoFailureKind::NotFound => "location_not_found"@,
                IoFailureKind::PermissionDenied => "permission_denied"@,
                IoFailureKind::Other => "filesystem_error"@,
            },
            message: match kind {
                IoFailureKind::NotFound => "That folder no longer exists or is unavailable."@,
                IoFailureKind::PermissionDenied => "MineTrace does not have permission to read that folder."@,
                IoFailureKind::Other => "MineTrace could not inspect that folder."@,
            },
            retryable: kind != IoFailureKind::NotFound,
            details: Some(DetailsView::Io { operation: operation@, path: path@ }),
        },
        BackendError::InvalidLocation { path, reason, score } => ApiErrorView {
            code: "invalid_minecraft_location"@,
            message: "Choose a Minecraft game directory, launcher root, or instance folder."@,
            retryable: false,
            details: Some(DetailsView::Location { path: path@, reason: reason@, validation_score: score }),
        },
        BackendError::Database | BackendError::MigrationChecksum { .. } => ApiErrorView {
            code: "database_error"@,
            message: "MineTrace could not open its local database."@,
            retryable: true,
            details: None,
        },
        BackendError::BackgroundTask(message) => ApiErrorView {
            code: "background_task_failed"@,
            message: message@,
            retryable: true,
            details: None,
        },
    }
}

impl ApiError {
    /// A failure of background work; trying again may help.
    pub fn background_task(message: String) -> (r: ApiError)
        ensures
            r@ == (ApiErrorView {
                code: "background_task_failed"@,
                message: message@,
                retryable: true,
                details: None,
            }),
    {
        proof {
            reveal_strlit("background_task_failed");
        }
        ApiError { code: "background_task_failed", message, retryable: true, details: None }
    }

    /// A request the backend refuses as it stands.
    pub fn invalid_request(message: String) -> (r: ApiError)
        ensures
            r@ == (ApiErrorView { code: "invalid_request"@, message: message@, retryable: false, details: None }),
    {
        proof {
            reveal_strlit("invalid_request");
        }
        ApiError { code: "invalid_request", message, retryable: false, details: None }
    }

    /// The interface's form of a backend error.
    pub fn from(error: BackendError) -> (r: ApiError)
        ensures
            r@ == api_error_spec(error),
    {
        proof {
            reveal_strlit("location_not_found");
            reveal_strlit("permission_denied");
            reveal_strlit("filesystem_error");
            reveal_strlit("That folder no longer exists or is unavailable.");
            reveal_strlit("MineTrace does not have permission to read that folder.");
            reveal_strlit("MineTrace could not inspect that folder.");
            reveal_strlit("invalid_minecraft_location");
            reveal_strlit("Choose a Minecraft game directory, launcher root, or instance folder.");
            reveal_strlit("database_error");
            reveal_strlit("MineTrace could not open its local database.");
        }
        match error {
            BackendError::Io { operation, path, kind } => {
                let (code, message, retryable): (&'static str, &'static str, bool) = match kind {
                    IoFailureKind::NotFound => (
                        "location_not_found",
                        "That folder no longer exists or is unavailable.",
                        false,
                    ),
                    IoFailureKind::PermissionDenied => (
                        "permission_denied",
                        "MineTrace does not have permission to read that folder.",
                        true,
                    ),
                    IoFailureKind::Other => ("filesystem_error", "MineTrace could not inspect that folder.", true),
                };
                ApiError {
                    code,
                    message: message.to_owned(),
                    retryable,
                    details: Some(ErrorDetails::Io { operation, path }),
                }
            },
            BackendError::InvalidLocation { path, reason, score } => ApiError {
                code: "invalid_minecraft_location",
                message: "Choose a Minecraft game directory, launcher root, or instance folder.".to_owned(),
                retryable: false,
                details: Some(ErrorDetails::Location { path, reason, validation_score: score }),
            },
            BackendError::Database | BackendError::MigrationChecksum { .. } => ApiError {
                code: "database_error",
                message: "MineTrace could not open its local database.".to_owned(),
                retryable: true,
                details: None,
            },
            BackendError::BackgroundTask(message) => ApiError::background_task(message),
        }
    }
}

} // verus!
