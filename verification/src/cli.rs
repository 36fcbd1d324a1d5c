//! The request-submitter surface: the parsed command line and the
//! submission it drives.

use crate::db::{EntryView, PermissionDB, PermissionEntry, PermissionState, StoreError};
use vstd::prelude::*;

verus! {

/// The parsed command line.
pub struct Args {
    pub command: Command,
}

/// What the command line asks for.
pub enum Command {
    /// Register an application's permission request.
    Request {
        /// The application identity.
        app: String,
        /// The requested permission identifiers; at least one is required.
        permissions: Vec<String>,
    },
}

/// Why a submission was not stored.
#[derive(Debug, Clone, Copy, PartialEq, Eq, Structural)]
pub enum SubmitError {
    /// The submission carried no permission at all; it is rejected here,
    /// before it reaches the store.
    NoPermissions,
    /// The store reported a failure.
    Storage(StoreError),
}

/// The record a submission creates: always in the `Block` state (fail
/// closed); a later edit is what moves it anywhere else.
pub open spec fn submitted_entry(app: Seq<char>, permissions: Seq<Seq<char>>) -> EntryView {
    EntryView {
        app_name: app,
        requested_permissions: permissions,
        permission_state: PermissionState::Block,
    }
}

/// Registers an application's permission request. A brand-new identity is
/// always created in the `Block` state, whatever it asked for; an identity
/// already on record has its whole record replaced. An empty permission
/// list is rejected before it reaches the store.
pub fn submit(db: &mut PermissionDB, app: String, permissions: Vec<String>) -> (r: Result<
    (),
    SubmitError,
>)
    requires
        old(db).wf(),
    ensures
        final(db).wf(),
        permissions.len() == 0 ==> r == Err::<(), SubmitError>(SubmitError::NoPermissions)
            && final(db).entries() == old(db).entries(),
        permissions.len() > 0 && r is Ok ==> final(db).entries() == old(db).entries().insert(
            app@,
            submitted_entry(app@, permissions.deep_view()),
        ),
        permissions.len() > 0 && r is Err ==> r == Err::<(), SubmitError>(
            SubmitError::Storage(StoreError::StorageUnavailable),
        ) && final(db).entries() == old(db).entries(),
{
    if permissions.len() == 0 {
        return Err(SubmitError::NoPermissions);
    }
    let entry = PermissionEntry {
        app_name: app,
        requested_permissions: permissions,
        permission_state: PermissionState::Block,
    };
    match db.upsert(&entry) {
        Ok(()) => Ok(()),
        Err(e) => Err(SubmitError::Storage(e)),
    }
}

/// Runs one parsed command against the store.
pub fn run_command(db: &mut PermissionDB, cmd: Command) -> (r: Result<(), SubmitError>)
    requires
        old(db).wf(),
    ensures
        final(db).wf(),
        cmd matches Command::Request { app, permissions } ==> {
            &&& permissions.len() == 0 ==> r == Err::<(), SubmitError>(SubmitError::NoPermissions)
                && final(db).entries() == old(db).entries()
            &&& permissions.len() > 0 && r is Ok ==> final(db).entries()
                == old(db).entries().insert(app@, submitted_entry(app@, permissions.deep_view()))
            &&& permissions.len() > 0 && r is Err ==> r == Err::<(), SubmitError>(
                SubmitError::Storage(StoreError::StorageUnavailable),
            ) && final(db).entries() == old(db).entries()
        },
{
    match cmd {
        Command::Request { app, permissions } => submit(db, app, permissions),
    }
}

} // verus!
