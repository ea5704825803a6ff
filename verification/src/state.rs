//! The per-container state machine of the supervisor: which lifecycle
//! transitions are legal, and the typed refusal for every other request.
//! A resource container that is bound into a running container carries a
//! positive use count and cannot be unmounted until that count is zero.

use vstd::prelude::*;

verus! {

/// The lifecycle state of one container.
#[derive(Debug, Clone, Copy, PartialEq, Eq, Structural)]
pub enum ContainerState {
    /// Present in a repository, nothing mounted.
    Installed,
    /// Filesystem mounted, no process.
    Mounted,
    /// Launch in progress, init not yet confirmed.
    Starting,
    /// Init confirmed, with its PID.
    Running(u32),
    /// Stop requested, exit not yet observed.
    Stopping,
}

/// Why a lifecycle request was refused.
#[derive(Debug, Clone, Copy, PartialEq, Eq, Structural)]
pub enum TransitionError {
    /// The container is not in a state to be mounted.
    MountBusy,
    /// The container is not mounted, or a running container still binds
    /// it as a resource.
    UmountBusy,
    /// The container is already starting, running or stopping.
    StartContainerStarted,
    /// A resource container has no process to start.
    StartContainerResource,
    /// The container has no process to stop.
    StopContainerNotStarted,
}

/// What a start request does next when it is legal.
#[derive(Debug, Clone, Copy, PartialEq, Eq, Structural)]
pub enum StartStep {
    /// The container must be mounted before launching.
    MountFirst,
    /// The container is mounted; launch it.
    Launch,
}

impl ContainerState {
    /// There is a process: a launch is in progress, confirmed, or being
    /// stopped.
    pub open spec fn active(self) -> bool {
        self is Starting || self is Running || self is Stopping
    }

    /// Mounting is legal exactly from `Installed`.
    pub open spec fn mount_spec(self) -> Result<ContainerState, TransitionError> {
        if self is Installed {
            Ok(ContainerState::Mounted)
        } else {
            Err(TransitionError::MountBusy)
        }
    }

    /// Unmounting is legal exactly from `Mounted` while no running
    /// container binds this one as a resource.
    pub open spec fn umount_spec(self, resource_users: u64) -> Result<
        ContainerState,
        TransitionError,
    > {
        if self is Mounted && resource_users == 0 {
            Ok(ContainerState::Installed)
        } else {
            Err(TransitionError::UmountBusy)
        }
    }

    /// A start is refused for resource containers and for containers that
    /// already have a process; otherwise the container is launched, after
    /// a mount when none is held yet.
    pub open spec fn start_spec(self, is_resource: bool) -> Result<StartStep, TransitionError> {
        if is_resource {
            Err(TransitionError::StartContainerResource)
        } else if self.active() {
            Err(TransitionError::StartContainerStarted)
        } else if self is Installed {
            Ok(StartStep::MountFirst)
        } else {
            Ok(StartStep::Launch)
        }
    }

    /// Stopping is legal exactly from `Running`.
    pub open spec fn stop_spec(self) -> Result<ContainerState, TransitionError> {
        if self is Running {
            Ok(ContainerState::Stopping)
        } else {
            Err(TransitionError::StopContainerNotStarted)
        }
    }

    /// An observed exit puts a container with a process back to
    /// `Mounted`; a container without one keeps its state.
    pub open spec fn exited_spec(self) -> ContainerState {
        if self.active() {
            ContainerState::Mounted
        } else {
            self
        }
    }

    /// Decide a mount request.
    pub fn mount(&self) -> (r: Result<ContainerState, TransitionError>)
        ensures
            r == self.mount_spec(),
    {
        match self {
            ContainerState::Installed => Ok(ContainerState::Mounted),
            _ => Err(TransitionError::MountBusy),
        }
    }

    /// Decide an umount request, given how many running containers bind
    /// this one as a resource.
    pub fn umount(&self, resource_users: u64) -> (r: Result<ContainerState, TransitionError>)
        ensures
            r == self.umount_spec(resource_users),
    {
        match self {
            ContainerState::Mounted => {
                if resource_users == 0 {
                    Ok(ContainerState::Installed)
                } else {
                    Err(TransitionError::UmountBusy)
                }
            },
            _ => Err(TransitionError::UmountBusy),
        }
    }

    /// Decide a start request.
    pub fn start(&self, is_resource: bool) -> (r: Result<StartStep, TransitionError>)
        ensures
            r == self.start_spec(is_resource),
    {
        if is_resource {
            return Err(TransitionError::StartContainerResource);
        }
        match self {
            ContainerState::Installed => Ok(StartStep::MountFirst),
            ContainerState::Mounted => Ok(StartStep::Launch),
            _ => Err(TransitionError::StartContainerStarted),
        }
    }

    /// The launcher confirms the forked process: launching becomes
    /// running.
    pub fn started(&self, pid: u32) -> (r: ContainerState)
        requires
            *self is Starting,
        ensures
            r == ContainerState::Running(pid),
    {
        ContainerState::Running(pid)
    }

    /// Decide a stop request.
    pub fn stop(&self) -> (r: Result<ContainerState, TransitionError>)
        ensures
            r == self.stop_spec(),
    {
        match self {
            ContainerState::Running(_) => Ok(ContainerState::Stopping),
            _ => Err(TransitionError::StopContainerNotStarted),
        }
    }

    /// Observe the process exit.
    pub fn exited(&self) -> (r: ContainerState)
        ensures
            r == self.exited_spec(),
    {
        match self {
            ContainerState::Starting => ContainerState::Mounted,
            ContainerState::Running(_) => ContainerState::Mounted,
            ContainerState::Stopping => ContainerState::Mounted,
            ContainerState::Installed => ContainerState::Installed,
            ContainerState::Mounted => ContainerState::Mounted,
        }
    }
}

/// Law: a start/stop cycle is stable. From `Mounted`, a start launches;
/// the confirmed launch runs under its PID; a stop and the observed exit
/// return the container to `Mounted`, whatever the PID.
pub proof fn lemma_start_stop_cycle(pid: u32)
    ensures
        ContainerState::Mounted.start_spec(false) == Ok::<StartStep, TransitionError>(
            StartStep::Launch,
        ),
        ContainerState::Running(pid).stop_spec() == Ok::<ContainerState, TransitionError>(
            ContainerState::Stopping,
        ),
        ContainerState::Stopping.exited_spec() == ContainerState::Mounted,
{
}

/// Law: while a resource is bound into at least one running container,
/// unmounting it is refused with `UmountBusy`, whatever its state; once
/// the count is back to zero a mounted resource unmounts.
pub proof fn lemma_resource_busy(s: ContainerState, users: u64)
    ensures
        users > 0 ==> s.umount_spec(users) == Err::<ContainerState, TransitionError>(
            TransitionError::UmountBusy,
        ),
        s is Mounted && users == 0 ==> s.umount_spec(users) == Ok::<
            ContainerState,
            TransitionError,
        >(ContainerState::Installed),
{
}

} // verus!
