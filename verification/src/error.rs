//! What can go wrong, and how it is reported.

use vstd::prelude::*;

verus! {

/// The commands that a sync runs to their end.
#[derive(Clone, Copy, Debug, PartialEq, Eq, Structural)]
pub enum Task {
    /// Testing whether the remote path is a file.
    ProbeRemote,
    /// Creating the remote directory.
    CreateRemoteDir,
    /// Listing what would be transferred.
    DryRun,
}

/// Why a sync cannot go on.
#[derive(Debug)]
pub enum SyncError {
    /// There is no home directory to start a path from.
    NoHomeDir,
    /// No host was given, and the ssh configuration names none.
    NoHosts,
    /// A command could not be started.
    NotStarted(Task),
    /// The named remote directory could not be created.
    RemoteDir(String),
    /// The local path lies in no directory.
    NoLocalParent,
    /// The named local directory could not be created.
    LocalDir(String),
    /// The dry run ended with an error.
    DryRunFailed,
    /// The transfer ended with an error.
    TransferFailed,
}

/// Why a sync cannot go on, with names as text.
pub enum Failure {
    NoHomeDir,
    NoHosts,
    NotStarted(Task),
    RemoteDir(Seq<char>),
    NoLocalParent,
    LocalDir(Seq<char>),
    DryRunFailed,
    TransferFailed,
}

impl View for SyncError {
    type V = Failure;

    open spec fn view(&self) -> Failure {
        match self {
            SyncError::NoHomeDir => Failure::NoHomeDir,
            SyncError::NoHosts => Failure::NoHosts,
            SyncError::NotStarted(task) => Failure::NotStarted(*task),
            SyncError::RemoteDir(path) => Failure::RemoteDir(path@),
            SyncError::NoLocalParent => Failure::NoLocalParent,
            SyncError::LocalDir(path) => Failure::LocalDir(path@),
            SyncError::DryRunFailed => Failure::DryRunFailed,
            SyncError::TransferFailed => Failure::TransferFailed,
        }
    }
}

impl Failure {
    /// The message for the user.
    pub open spec fn text(self) -> Seq<char> {
        match self {
            Failure::NoHomeDir => "unable to resolve home dir"@,
            Failure::NoHosts => "no hosts found in ~/.ssh/config and no host provided"@,
            Failure::NotStarted(Task::ProbeRemote) => "failed to run ssh test -f"@,
            Failure::NotStarted(Task::CreateRemoteDir) => "failed to run ssh mkdir -p"@,
            Failure::NotStarted(Task::DryRun) => "failed to run rsync --dry-run"@,
            Failure::RemoteDir(path) => "failed to create remote directory "@ + path,
            Failure::NoLocalParent => "unable to resolve local parent"@,
            Failure::LocalDir(path) => "failed to create "@ + path,
            Failure::DryRunFailed => "rsync dry run failed"@,
            Failure::TransferFailed => "rsync failed"@,
        }
    }
}

impl SyncError {
    /// The message for the user.
    pub fn message(&self) -> (r: String)
        ensures
            r@ == self@.text(),
    {
        match self {
            SyncError::NoHomeDir => "unable to resolve home dir".to_string(),
            SyncError::NoHosts => {
                "no hosts found in ~/.ssh/config and no host provided".to_string()
            },
            SyncError::NotStarted(Task::ProbeRemote) => "failed to run ssh test -f".to_string(),
            SyncError::NotStarted(Task::CreateRemoteDir) => {
                "failed to run ssh mkdir -p".to_string()
            },
            SyncError::NotStarted(Task::DryRun) => "failed to run rsync --dry-run".to_string(),
            SyncError::RemoteDir(path) => {
                let mut r = "failed to create remote directory ".to_string();
                r.append(path.as_str());
                r
            },
            SyncError::NoLocalParent => "unable to resolve local parent".to_string(),
            SyncError::LocalDir(path) => {
                let mut r = "failed to create ".to_string();
                r.append(path.as_str());
                r
            },
            SyncError::DryRunFailed => "rsync dry run failed".to_string(),
            SyncError::TransferFailed => "rsync failed".to_string(),
        }
    }
}

} // verus!
