//! Decoded upstream webhook events. The HTTP framing and signature
//! verification are a collaborator's responsibility; the core consumes the
//! decoded events and maps each lifecycle action to a seen intent.

use vstd::prelude::*;

verus! {

/// The upstream heartbeat event; it carries nothing the core reads.
pub struct PingEvent {}

/// An application-installation lifecycle event over a set of repositories.
pub struct InstallationEvent {
    pub action: InstallationEventAction,
    pub repositories: Vec<Repo>,
    pub installation: Installation,
}

/// What happened to the installation.
#[derive(Clone, Copy, PartialEq, Eq, Structural, Debug)]
pub enum InstallationEventAction {
    Created,
    Deleted,
    Suspend,
    Unsuspend,
    NewPermissionsAccepted,
}

/// The seen intent of an installation action: visible on creation, on a
/// lifted suspension and on re-accepted permissions; hidden on deletion and
/// suspension.
pub open spec fn installation_seen_spec(a: InstallationEventAction) -> bool {
    match a {
        InstallationEventAction::Created => true,
        InstallationEventAction::Unsuspend => true,
        InstallationEventAction::NewPermissionsAccepted => true,
        InstallationEventAction::Deleted => false,
        InstallationEventAction::Suspend => false,
    }
}

impl InstallationEventAction {
    /// The seen intent this action signals.
    pub fn seen(self) -> (r: bool)
        ensures
            r == installation_seen_spec(self),
    {
        match self {
            Self::Created | Self::Unsuspend | Self::NewPermissionsAccepted => true,
            Self::Deleted | Self::Suspend => false,
        }
    }
}

/// Repositories added to or removed from an existing installation.
pub struct InstallationRepositoriesEvent {
    pub action: InstallationRepositoriesEventAction,
    pub repositories_added: Vec<Repo>,
    pub repositories_removed: Vec<Repo>,
}

/// Whether repositories were added to or removed from the installation.
#[derive(Clone, Copy, PartialEq, Eq, Structural, Debug)]
pub enum InstallationRepositoriesEventAction {
    Added,
    Removed,
}

/// The seen intent of an installation-repositories action.
pub open spec fn installation_repositories_seen_spec(
    a: InstallationRepositoriesEventAction,
) -> bool {
    a == InstallationRepositoriesEventAction::Added
}

impl InstallationRepositoriesEventAction {
    /// The seen intent this action signals.
    pub fn seen(self) -> (r: bool)
        ensures
            r == installation_repositories_seen_spec(self),
    {
        match self {
            Self::Added => true,
            Self::Removed => false,
        }
    }
}

/// An upstream content push: the trigger of the update fan-out.
pub struct PushEvent {
    pub installation: Installation,
    pub repository: Repo,
    pub ref_: String,
}

/// A repository lifecycle event.
pub struct RepoEvent {
    pub action: RepoEventAction,
    pub repository: Repo,
    pub installation: Installation,
}

/// What happened to the repository.
#[derive(Clone, Copy, PartialEq, Eq, Structural, Debug)]
pub enum RepoEventAction {
    Created,
    Deleted,
    Archived,
    Unarchived,
    Edited,
    Renamed,
    Transferred,
    Publicized,
    Privatized,
}

/// The seen intent of a repository action, or `None` for a transfer, which
/// deliberately changes no seen state.
pub open spec fn repo_seen_spec(a: RepoEventAction) -> Option<bool> {
    match a {
        RepoEventAction::Created => Some(true),
        RepoEventAction::Unarchived => Some(true),
        RepoEventAction::Edited => Some(true),
        RepoEventAction::Renamed => Some(true),
        RepoEventAction::Publicized => Some(true),
        RepoEventAction::Deleted => Some(false),
        RepoEventAction::Archived => Some(false),
        RepoEventAction::Privatized => Some(false),
        RepoEventAction::Transferred => None,
    }
}

impl RepoEventAction {
    /// The seen intent this action signals, if any.
    pub fn seen(self) -> (r: Option<bool>)
        ensures
            r == repo_seen_spec(self),
    {
        match self {
            Self::Created | Self::Unarchived | Self::Edited | Self::Renamed | Self::Publicized => {
                Some(true)
            },
            Self::Deleted | Self::Archived | Self::Privatized => Some(false),
            Self::Transferred => None,
        }
    }
}

/// The installation an event belongs to.
pub struct Installation {
    pub id: u64,
}

/// A repository as named in webhook payloads.
pub struct Repo {
    pub id: u64,
    pub full_name: String,
}

} // verus!
