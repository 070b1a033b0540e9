//! Sync status coordinator.
//!
//! One synchronization attempt walks a small state machine — idle,
//! authenticating, checking what the server requires, syncing, then
//! complete or failed — and the UI polls the current state.  The network
//! exchange itself is a collaborator the surrounding program drives; this
//! module decides which step comes next and what the user is told.

use vstd::prelude::*;

verus! {

/// The coordinator's state as the UI sees it when polling.
pub enum SyncStatus {
    Idle,
    Authenticating,
    CheckingStatus,
    SyncingCollection { progress: String },
    SyncingMedia { checked: String, added: String, removed: String },
    Complete { message: String },
    Error { message: String },
}

impl Clone for SyncStatus {
    /// An exact copy, so polling returns the status as it stands.
    fn clone(&self) -> (r: Self)
        ensures
            r == *self,
    {
        match self {
            SyncStatus::Idle => SyncStatus::Idle,
            SyncStatus::Authenticating => SyncStatus::Authenticating,
            SyncStatus::CheckingStatus => SyncStatus::CheckingStatus,
            SyncStatus::SyncingCollection { progress } => SyncStatus::SyncingCollection {
                progress: progress.clone(),
            },
            SyncStatus::SyncingMedia { checked, added, removed } => SyncStatus::SyncingMedia {
                checked: checked.clone(),
                added: added.clone(),
                removed: removed.clone(),
            },
            SyncStatus::Complete { message } => SyncStatus::Complete {
                message: message.clone(),
            },
            SyncStatus::Error { message } => SyncStatus::Error { message: message.clone() },
        }
    }
}

/// The outcome of one synchronization attempt.
pub struct SyncResult {
    pub success: bool,
    pub message: String,
    pub server_message: Option<String>,
}

/// What the server requires of this collection, as the status check
/// reports it.
#[derive(Clone, Copy, Debug, PartialEq, Eq, Structural)]
pub enum SyncRequired {
    NoChanges,
    NormalSync,
    FullSync,
}

/// What the caller must do next after the status check has been resolved.
pub enum SyncStep {
    /// The attempt is over; hand this result to the caller.
    Finished(SyncResult),
    /// Run the incremental collection exchange, then report its outcome.
    RunCollectionSync,
}

/// The sync coordinator: holds the pollable status.  The surrounding
/// program performs the network calls and reports their outcomes here.
pub struct SyncManager {
    pub status: SyncStatus,
}

impl SyncManager {
    /// A coordinator that has not synced yet.
    pub fn new() -> (m: Self)
        ensures
            m.status is Idle,
    {
        SyncManager { status: SyncStatus::Idle }
    }

    /// The last-set status, for polling; never blocks, never changes it.
    pub fn get_status(&self) -> (r: SyncStatus)
        ensures
            r == self.status,
    {
        self.status.clone()
    }

    /// A login is about to be attempted (no cached session token).
    pub fn start_authentication(&mut self)
        ensures
            final(self).status is Authenticating,
    {
        self.status = SyncStatus::Authenticating;
    }

    /// The server is about to be asked what kind of sync is required.
    pub fn start_check(&mut self)
        ensures
            final(self).status is CheckingStatus,
    {
        self.status = SyncStatus::CheckingStatus;
    }

    /// The attempt failed with `message`: the status shows the error and
    /// the returned result carries the same text, with no server message.
    pub fn fail(&mut self, message: String) -> (r: SyncResult)
        ensures
            final(self).status matches SyncStatus::Error { message: m } && m == message,
            !r.success,
            r.message == message,
            r.server_message is None,
    {
        self.status = SyncStatus::Error { message: message.clone() };
        SyncResult { success: false, message, server_message: None }
    }

    /// Decide the next step from what the server requires.
    ///
    /// Nothing to sync ends the attempt successfully; a normal sync moves
    /// to the syncing state and asks the caller to run the exchange; a
    /// required full sync is an explicit unsupported case and ends the
    /// attempt with an error directing the user to a full client.
    pub fn resolve_required(&mut self, required: SyncRequired) -> (r: SyncStep)
        ensures
            required is NoChanges ==> {
                &&& final(self).status matches SyncStatus::Complete { message } && message@
                    == "No changes to sync"@
                &&& r matches SyncStep::Finished(res) && res.success && res.message@
                    == "No changes to sync"@ && res.server_message is None
            },
            required is NormalSync ==> {
                &&& final(self).status matches SyncStatus::SyncingCollection { progress }
                    && progress@ == "Syncing collection..."@
                &&& r is RunCollectionSync
            },
            required is FullSync ==> {
                &&& final(self).status matches SyncStatus::Error { message } && message@
                    == "Full sync required. Please sync via desktop Anki first."@
                &&& r matches SyncStep::Finished(res) && !res.success && res.message@
                    == "Full sync required. Please sync via desktop Anki first."@
                    && res.server_message is None
            },
    {
        match required {
            SyncRequired::NoChanges => {
                let message = "No changes to sync".to_owned();
                self.status = SyncStatus::Complete { message: message.clone() };
                SyncStep::Finished(
                    SyncResult { success: true, message, server_message: None },
                )
            },
            SyncRequired::NormalSync => {
                self.status = SyncStatus::SyncingCollection {
                    progress: "Syncing collection...".to_owned(),
                };
                SyncStep::RunCollectionSync
            },
            SyncRequired::FullSync => {
                let message = "Full sync required. Please sync via desktop Anki first.".to_owned();
                self.status = SyncStatus::Error { message: message.clone() };
                SyncStep::Finished(
                    SyncResult { success: false, message, server_message: None },
                )
            },
        }
    }

    /// The incremental exchange finished; record success and hand the
    /// server's own message through to the caller.
    pub fn finish_collection_sync(&mut self, server_message: String) -> (r: SyncResult)
        ensures
            final(self).status matches SyncStatus::Complete { message } && message@
                == "Collection synced successfully"@,
            r.success,
            r.message@ == "Collection synced successfully"@,
            r.server_message == Some(server_message),
    {
        let message = "Collection synced successfully".to_owned();
        self.status = SyncStatus::Complete { message: message.clone() };
        SyncResult { success: true, message, server_message: Some(server_message) }
    }
}

impl Default for SyncManager {
    /// Same as [`SyncManager::new`]: a coordinator that has not synced.
    fn default() -> (m: Self)
        ensures
            m.status is Idle,
    {
        SyncManager::new()
    }
}

} // verus!
