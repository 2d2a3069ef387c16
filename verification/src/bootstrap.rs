//! How the application starts: with the welcome screen, or with the
//! configured task directory.
use vstd::prelude::*;

use crate::config::AppConfig;

verus! {

#[verifier::external_type_specification]
#[verifier::external_body]
pub struct ExIoError(std::io::Error);

/// The kinds of I/O failure that decide how the application starts.
#[derive(Debug, Clone, Copy, PartialEq, Eq, Structural)]
pub enum IoKind {
    NotFound,
    InvalidInput,
    PermissionDenied,
    Other,
}

/// `io::Error::kind`, sorted into the kinds that this library tells apart.
/// Nothing is claimed of which kind comes back.
#[verifier::external_body]
fn kind_of(error: &std::io::Error) -> (r: IoKind) {
    match error.kind() {
        std::io::ErrorKind::NotFound => IoKind::NotFound,
        std::io::ErrorKind::InvalidInput => IoKind::InvalidInput,
        std::io::ErrorKind::PermissionDenied => IoKind::PermissionDenied,
        _ => IoKind::Other,
    }
}

/// A configuration problem that the user can fix from the welcome screen:
/// an invalid input, such as a malformed config file or a task directory
/// that is not a directory.
pub fn is_structural_kind(kind: IoKind) -> (r: bool)
    ensures
        r == (kind == IoKind::InvalidInput),
{
    kind == IoKind::InvalidInput
}

/// Whether an I/O error is a configuration problem the user can fix from
/// the welcome screen (see `is_structural_kind`).
pub fn is_structural_config_error(error: &std::io::Error) -> bool {
    is_structural_kind(kind_of(error))
}

/// How the application starts.
#[derive(Debug)]
pub enum LaunchMode {
    Welcome,
    Main(AppConfig),
}

/// The next step of starting up.
#[derive(Debug)]
pub enum LaunchStep {
    /// Start in this mode.
    Ready(LaunchMode),
    /// The configuration loaded; its task directory must be checked next.
    CheckTaskDir(AppConfig),
    /// Starting fails with the error just met.
    Fail,
}

impl LaunchMode {
    /// The step after loading the configuration: a missing or malformed
    /// configuration leads to the welcome screen, any other failure stops
    /// the start, and a loaded configuration has its directory checked.
    pub fn from_disk(loaded: Result<AppConfig, IoKind>) -> (r: LaunchStep)
        ensures
            match loaded {
                Ok(c) => r matches LaunchStep::CheckTaskDir(x) && x@ == c@,
                Err(k) => if k == IoKind::InvalidInput || k == IoKind::NotFound {
                    r matches LaunchStep::Ready(LaunchMode::Welcome)
                } else {
                    r is Fail
                },
            },
    {
        match loaded {
            Ok(c) => LaunchStep::CheckTaskDir(c),
            Err(k) => if is_structural_kind(k) || k == IoKind::NotFound {
                LaunchStep::Ready(LaunchMode::Welcome)
            } else {
                LaunchStep::Fail
            },
        }
    }

    /// The step after checking the task directory: a usable directory starts
    /// the main screen, an invalid one the welcome screen; any other failure
    /// stops the start.
    pub fn after_task_dir_check(config: AppConfig, checked: Result<(), IoKind>) -> (r: LaunchStep)
        ensures
            match checked {
                Ok(()) => r matches LaunchStep::Ready(LaunchMode::Main(x)) && x@ == config@,
                Err(k) => if k == IoKind::InvalidInput {
                    r matches LaunchStep::Ready(LaunchMode::Welcome)
                } else {
                    r is Fail
                },
            },
    {
        match checked {
            Ok(()) => LaunchStep::Ready(LaunchMode::Main(config)),
            Err(k) => if is_structural_kind(k) {
                LaunchStep::Ready(LaunchMode::Welcome)
            } else {
                LaunchStep::Fail
            },
        }
    }
}

} // verus!
