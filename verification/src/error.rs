//! The error taxonomy surfaced to clients.

use vstd::prelude::*;
use crate::container::Container;
use crate::name::Name;
use crate::version::VersionReq;

verus! {

/// How a container exited.
#[derive(Debug, Clone, Copy, PartialEq, Eq, Structural)]
pub enum ExitStatus {
    /// Exited with a code.
    Exit {
        /// The exit code.
        code: i32,
    },
    /// Terminated by a signal.
    Signalled {
        /// The signal number.
        signal: u32,
    },
}

/// An error surfaced to clients.
#[derive(Debug, Clone, PartialEq, Eq)]
pub enum Error {
    /// Malformed input or failed validation.
    Configuration(String),
    /// The identity is already present.
    DuplicateContainer(Container),
    /// An install found the identity already present.
    InstallDuplicate(Container),
    /// The identity is unknown.
    InvalidContainer(Container),
    /// A malformed request payload.
    InvalidArguments(String),
    /// The container cannot be mounted in its current state.
    MountBusy(Container),
    /// The container is still used or not in a state to unmount.
    UmountBusy(Container),
    /// The container is already started.
    StartContainerStarted(Container),
    /// A resource container cannot be started.
    StartContainerResource(Container),
    /// A resource the container depends on is not installed.
    StartContainerMissingResource(Container, Name, VersionReq),
    /// The launcher failed to start the container.
    StartContainerFailed(Container, String),
    /// The container is not started.
    StopContainerNotStarted(Container),
    /// The repository is unknown.
    InvalidRepository(String),
    /// A critical container exited abnormally; the runtime shuts down.
    CriticalContainer(Container, ExitStatus),
    /// Everything else, with a description.
    Unexpected(String),
}

/// Exit code of a clean runtime shutdown.
pub const EXIT_CLEAN: i32 = 0;

/// Exit code of a fatal configuration error.
pub const EXIT_CONFIGURATION: i32 = 1;

/// Exit code after a critical container exited abnormally.
pub const EXIT_CRITICAL_CONTAINER: i32 = 2;

/// An exit is abnormal unless it is an exit with code zero.
pub open spec fn abnormal(s: ExitStatus) -> bool {
    !(s matches ExitStatus::Exit { code } && code == 0)
}

/// What the supervisor does once a container has exited.
#[derive(Debug, Clone, Copy, PartialEq, Eq, Structural)]
pub enum ExitAction {
    /// Emit a notification and carry on.
    Notify,
    /// Shut the runtime down with `EXIT_CRITICAL_CONTAINER`.
    Shutdown,
}

/// The policy on a container exit: a critical container's abnormal exit
/// shuts the runtime down; any other exit only emits a notification.
pub fn exit_action(critical: bool, status: &ExitStatus) -> (r: ExitAction)
    ensures
        r == ExitAction::Shutdown <==> critical && abnormal(*status),
{
    if critical {
        match status {
            ExitStatus::Exit { code } => {
                if *code == 0 {
                    ExitAction::Notify
                } else {
                    ExitAction::Shutdown
                }
            },
            ExitStatus::Signalled { .. } => ExitAction::Shutdown,
        }
    } else {
        ExitAction::Notify
    }
}

} // verus!
