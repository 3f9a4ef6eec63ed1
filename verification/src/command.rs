//! The command surface: the wire-level client commands, the internal
//! command set (client commands plus operator commands), the typed
//! responses, and the conversion from wire command to internal command
//! with the response shape the caller should await.

use vstd::prelude::*;

verus! {

/// An opaque user identifier: supplied by a returning client or minted
/// fresh on first contact.
pub type UserId = String;

/// A client command as decoded from the wire. `Store` carries the
/// upsert written as `SET` on the wire.
#[derive(Debug, PartialEq)]
pub enum WireCommand {
    Hi { user_id: Option<UserId> },
    Ping { user_id: UserId },
    Store { user_id: UserId, key: String, value: u64 },
    Get { user_id: UserId, key: String },
    Del { user_id: UserId, key: String },
    Update { user_id: UserId, key: String, value: u64 },
    Range { user_id: UserId, start: String, end: String },
    List { user_id: UserId },
    Exit { user_id: UserId },
}

/// An internal command: every client command, plus the out-of-band
/// operator commands and the forced-snapshot request.
#[derive(Debug, PartialEq)]
pub enum Command {
    Hi { user_id: Option<UserId> },
    Ping { user_id: UserId },
    Store { user_id: UserId, key: String, value: u64 },
    Get { user_id: UserId, key: String },
    Del { user_id: UserId, key: String },
    Update { user_id: UserId, key: String, value: u64 },
    Range { user_id: UserId, start: String, end: String },
    List { user_id: UserId },
    Exit { user_id: UserId },
    Persist,
    Shutdown,
    Crash,
    ClearWal,
    Snapshot,
}

/// The shape of the response a request's sender awaits.
#[derive(Clone, Copy, Debug, PartialEq, Eq, Structural)]
pub enum ResponseKind {
    UserId,
    Liveness,
    Unit,
    OptValue,
    KvList,
}

/// A typed response, one per request.
#[derive(Debug, PartialEq)]
pub enum Response {
    UserId(String),
    Liveness(String),
    Unit(Result<(), String>),
    OptValue(Result<Option<u64>, String>),
    KvList(Result<Vec<((String, String), u64)>, String>),
}

impl WireCommand {
    /// Converts a wire command into the internal command, paired with the
    /// response shape its sender awaits.
    pub fn into_internal(self) -> (r: (Command, ResponseKind))
        ensures
            (match self {
                WireCommand::Hi { user_id } => r.0 == Command::Hi { user_id } && r.1
                    == ResponseKind::UserId,
                WireCommand::Ping { user_id } => r.0 == Command::Ping { user_id } && r.1
                    == ResponseKind::Liveness,
                WireCommand::Store { user_id, key, value } => r.0 == (Command::Store {
                    user_id,
                    key,
                    value,
                }) && r.1 == ResponseKind::Unit,
                WireCommand::Get { user_id, key } => r.0 == (Command::Get { user_id, key }) && r.1
                    == ResponseKind::OptValue,
                WireCommand::Del { user_id, key } => r.0 == (Command::Del { user_id, key }) && r.1
                    == ResponseKind::Unit,
                WireCommand::Update { user_id, key, value } => r.0 == (Command::Update {
                    user_id,
                    key,
                    value,
                }) && r.1 == ResponseKind::Unit,
                WireCommand::Range { user_id, start, end } => r.0 == (Command::Range {
                    user_id,
                    start,
                    end,
                }) && r.1 == ResponseKind::KvList,
                WireCommand::List { user_id } => r.0 == (Command::List { user_id }) && r.1
                    == ResponseKind::KvList,
                WireCommand::Exit { user_id } => r.0 == (Command::Exit { user_id }) && r.1
                    == ResponseKind::Unit,
            }),
    {
        match self {
            WireCommand::Hi { user_id } => (Command::Hi { user_id }, ResponseKind::UserId),
            WireCommand::Ping { user_id } => (Command::Ping { user_id }, ResponseKind::Liveness),
            WireCommand::Store { user_id, key, value } => (
                Command::Store { user_id, key, value },
                ResponseKind::Unit,
            ),
            WireCommand::Get { user_id, key } => (
                Command::Get { user_id, key },
                ResponseKind::OptValue,
            ),
            WireCommand::Del { user_id, key } => (Command::Del { user_id, key }, ResponseKind::Unit),
            WireCommand::Update { user_id, key, value } => (
                Command::Update { user_id, key, value },
                ResponseKind::Unit,
            ),
            WireCommand::Range { user_id, start, end } => (
                Command::Range { user_id, start, end },
                ResponseKind::KvList,
            ),
            WireCommand::List { user_id } => (Command::List { user_id }, ResponseKind::KvList),
            WireCommand::Exit { user_id } => (Command::Exit { user_id }, ResponseKind::Unit),
        }
    }
}

} // verus!
