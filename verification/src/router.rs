//! Routing decisions: which actor a command belongs to, what a user
//! session answers itself, and what the operator channel acknowledges.
//! The queues, tasks and channels that carry these decisions out live
//! outside the library; the decisions themselves are total functions of
//! the command.

use vstd::prelude::*;

use crate::command::Command;

verus! {

/// Where a command is sent: to the session actor of its user (created on
/// first contact), straight to the storage engine, or nowhere (operator
/// commands never travel the client path).
pub enum Route {
    ToUser(String),
    ToStore,
    Unrouted,
}

/// The user identifier a client command carries, if any.
pub open spec fn spec_cmd_user(cmd: Command) -> Option<Seq<char>> {
    match cmd {
        Command::Ping { user_id } => Some(user_id@),
        Command::Store { user_id, .. } => Some(user_id@),
        Command::Get { user_id, .. } => Some(user_id@),
        Command::Del { user_id, .. } => Some(user_id@),
        Command::Update { user_id, .. } => Some(user_id@),
        Command::Range { user_id, .. } => Some(user_id@),
        Command::List { user_id } => Some(user_id@),
        Command::Exit { user_id } => Some(user_id@),
        _ => None,
    }
}

/// Decides the owning actor: commands that carry a user identifier go to
/// that user's session; session bootstrap (`Hi`) goes straight to the
/// storage engine; operator commands take no client route.
pub fn route_cmd(cmd: &Command) -> (r: Route)
    ensures
        (match spec_cmd_user(*cmd) {
            Some(u) => r matches Route::ToUser(id) && id@ == u,
            None => (cmd matches Command::Hi { .. } && r is ToStore) || (!(cmd
                matches Command::Hi { .. }) && r is Unrouted),
        }),
{
    match cmd {
        Command::Ping { user_id } => Route::ToUser(user_id.clone()),
        Command::Store { user_id, .. } => Route::ToUser(user_id.clone()),
        Command::Get { user_id, .. } => Route::ToUser(user_id.clone()),
        Command::Del { user_id, .. } => Route::ToUser(user_id.clone()),
        Command::Update { user_id, .. } => Route::ToUser(user_id.clone()),
        Command::Range { user_id, .. } => Route::ToUser(user_id.clone()),
        Command::List { user_id } => Route::ToUser(user_id.clone()),
        Command::Exit { user_id } => Route::ToUser(user_id.clone()),
        Command::Hi { .. } => Route::ToStore,
        _ => Route::Unrouted,
    }
}

/// What a user session does with one command from its queue.
#[derive(Clone, Copy, Debug, PartialEq, Eq, Structural)]
pub enum UserAction {
    Forward,
    AnswerPing,
    AnswerExit,
    Skip,
}

/// A user session's decision: storage commands are forwarded unchanged to
/// the storage engine; ping and exit are answered locally; anything else
/// is skipped as a non-user command.
pub fn user_step(cmd: &Command) -> (a: UserAction)
    ensures
        a == (match cmd {
            Command::Store { .. } => UserAction::Forward,
            Command::Get { .. } => UserAction::Forward,
            Command::Del { .. } => UserAction::Forward,
            Command::Update { .. } => UserAction::Forward,
            Command::Range { .. } => UserAction::Forward,
            Command::List { .. } => UserAction::Forward,
            Command::Ping { .. } => UserAction::AnswerPing,
            Command::Exit { .. } => UserAction::AnswerExit,
            _ => UserAction::Skip,
        }),
{
    match cmd {
        Command::Store { .. } => UserAction::Forward,
        Command::Get { .. } => UserAction::Forward,
        Command::Del { .. } => UserAction::Forward,
        Command::Update { .. } => UserAction::Forward,
        Command::Range { .. } => UserAction::Forward,
        Command::List { .. } => UserAction::Forward,
        Command::Ping { .. } => UserAction::AnswerPing,
        Command::Exit { .. } => UserAction::AnswerExit,
        _ => UserAction::Skip,
    }
}

/// The static liveness string a session answers to ping.
pub fn ping_response() -> (r: String)
    ensures
        r@ == "Server Running!"@,
{
    "Server Running!".to_owned()
}

/// What the operator channel does with one command.
#[derive(Clone, Copy, Debug, PartialEq, Eq, Structural)]
pub enum AdminAction {
    AckShutdown,
    AckCrash,
    AckClearWal,
    AckSnapshot,
    Ignore,
}

/// The operator channel's decision: each operator command is
/// acknowledged (the acknowledged effect — stopping, crashing, truncating
/// the log, forcing a snapshot — is carried out by the surrounding
/// process); anything else is ignored.
pub fn admin_step(cmd: &Command) -> (a: AdminAction)
    ensures
        a == (match cmd {
            Command::Shutdown => AdminAction::AckShutdown,
            Command::Crash => AdminAction::AckCrash,
            Command::ClearWal => AdminAction::AckClearWal,
            Command::Snapshot => AdminAction::AckSnapshot,
            _ => AdminAction::Ignore,
        }),
{
    match cmd {
        Command::Shutdown => AdminAction::AckShutdown,
        Command::Crash => AdminAction::AckCrash,
        Command::ClearWal => AdminAction::AckClearWal,
        Command::Snapshot => AdminAction::AckSnapshot,
        _ => AdminAction::Ignore,
    }
}

} // verus!
