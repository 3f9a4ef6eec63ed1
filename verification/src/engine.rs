//! The storage engine step: the single writer takes one command at a
//! time from its queue and executes it against the store. Every mutating
//! command is appended to the write-ahead log before its effect is
//! applied and acknowledged, so a crash after the acknowledgement can
//! always be replayed.

use vstd::prelude::*;

use crate::command::{Command, Response};
use crate::store::StoreState;
use crate::wal::{
    append_record, check_record_fits, rec_fits, spec_frame, spec_rec_bytes, LogRecord, RecModel,
};

verus! {

/// The commands the storage engine accepts; everything else belongs to
/// other actors, and routing it here is a contract defect.
pub open spec fn is_storage_cmd(cmd: Command) -> bool {
    ||| cmd matches Command::Hi { .. }
    ||| cmd matches Command::Store { .. }
    ||| cmd matches Command::Get { .. }
    ||| cmd matches Command::Del { .. }
    ||| cmd matches Command::Update { .. }
    ||| cmd matches Command::Range { .. }
    ||| cmd matches Command::List { .. }
}

/// Relies on uuid::Uuid::new_v4 and its hyphenated rendering: a freshly
/// minted random identifier, always 36 characters. Nothing more is
/// promised of a random value.
#[verifier::external_body]
fn mint_user_id() -> (r: String)
    ensures
        r@.len() == 36,
{
    uuid::Uuid::new_v4().to_string()
}

impl StoreState {
    /// Executes one storage command. `log` is the write-ahead log image:
    /// the caller persists whatever this appends to it before handing out
    /// the response. A mutation is logged, then applied; one whose record
    /// cannot be framed is refused without touching state or log. Reads
    /// and session bootstrap leave the log alone. Never panics and, for
    /// every accepted command, never fails except as stated.
    pub fn handle_command(&mut self, cmd: Command, log: &mut Vec<u8>) -> (r: Response)
        requires
            old(self).wf(),
            is_storage_cmd(cmd),
        ensures
            final(self).wf(),
            (match cmd {
                Command::Hi { user_id } => {
                    &&& final(log)@ == old(log)@
                    &&& final(self).kv_map() == old(self).kv_map()
                    &&& r matches Response::UserId(s) && (match user_id {
                        Some(id) if old(self).users_set().contains(id@) => s@ == id@
                            && final(self).users_set() == old(self).users_set(),
                        _ => final(self).users_set() == old(self).users_set().insert(s@),
                    })
                },
                Command::Store { user_id, key, value } => mutation_post(
                    *old(self),
                    *final(self),
                    old(log)@,
                    final(log)@,
                    RecModel::Store { user: user_id@, key: key@, value },
                    r,
                ),
                Command::Update { user_id, key, value } => mutation_post(
                    *old(self),
                    *final(self),
                    old(log)@,
                    final(log)@,
                    RecModel::Update { user: user_id@, key: key@, value },
                    r,
                ),
                Command::Del { user_id, key } => mutation_post(
                    *old(self),
                    *final(self),
                    old(log)@,
                    final(log)@,
                    RecModel::Del { user: user_id@, key: key@ },
                    r,
                ),
                Command::Get { user_id, key } => {
                    &&& *final(self) == *old(self)
                    &&& final(log)@ == old(log)@
                    &&& r == Response::OptValue(
                        Ok(
                            if old(self).kv_map().dom().contains((user_id@, key@)) {
                                Some(old(self).kv_map()[(user_id@, key@)])
                            } else {
                                None
                            },
                        ),
                    )
                },
                Command::Range { user_id, start, end } => {
                    &&& *final(self) == *old(self)
                    &&& final(log)@ == old(log)@
                    &&& r matches Response::KvList(res) && res matches Ok(v) && v@.map_values(
                        |t: ((String, String), u64)| ((t.0.0@, t.0.1@), t.1),
                    ) == old(self).range_entries(user_id@, start@, end@)
                },
                Command::List { user_id } => {
                    &&& *final(self) == *old(self)
                    &&& final(log)@ == old(log)@
                    &&& r matches Response::KvList(res) && res matches Ok(v) && v@.map_values(
                        |t: ((String, String), u64)| ((t.0.0@, t.0.1@), t.1),
                    ) == old(self).user_entries(user_id@)
                },
                _ => false,
            }),
    {
        match cmd {
            Command::Hi { user_id } => {
                let fresh = mint_user_id();
                let assigned = self.hi(user_id, fresh);
                Response::UserId(assigned)
            },
            Command::Store { user_id, key, value } => {
                let rec = LogRecord::Store { user: user_id.clone(), key: key.clone(), value };
                if !check_record_fits(&rec) {
                    return Response::Unit(Err("record too large".to_owned()));
                }
                append_record(log, &rec);
                let _ = self.store_values(user_id, key, value);
                Response::Unit(Ok(()))
            },
            Command::Update { user_id, key, value } => {
                let rec = LogRecord::Update { user: user_id.clone(), key: key.clone(), value };
                if !check_record_fits(&rec) {
                    return Response::Unit(Err("record too large".to_owned()));
                }
                append_record(log, &rec);
                let _ = self.update_val(user_id, key, value);
                Response::Unit(Ok(()))
            },
            Command::Del { user_id, key } => {
                let rec = LogRecord::Del { user: user_id.clone(), key: key.clone() };
                if !check_record_fits(&rec) {
                    return Response::Unit(Err("record too large".to_owned()));
                }
                append_record(log, &rec);
                let _ = self.delete_val(user_id.as_str(), key.as_str());
                Response::Unit(Ok(()))
            },
            Command::Get { user_id, key } => {
                let v = self.fetch_values(user_id.as_str(), key.as_str());
                Response::OptValue(Ok(v))
            },
            Command::Range { user_id, start, end } => {
                let v = self.range(user_id.as_str(), start.as_str(), end.as_str());
                Response::KvList(Ok(v))
            },
            Command::List { user_id } => {
                let v = self.list_all(user_id.as_str());
                Response::KvList(Ok(v))
            },
            _ => vstd::pervasive::unreached(),
        }
    }
}

/// What one accepted mutation guarantees: the record was appended to the
/// log image, then its effect applied — or, if its strings cannot be
/// framed under the length headers, it was refused with an error and
/// neither state nor log moved.
pub open spec fn mutation_post(
    pre: StoreState,
    post: StoreState,
    pre_log: Seq<u8>,
    post_log: Seq<u8>,
    m: RecModel,
    r: Response,
) -> bool {
    if rec_fits(m) {
        &&& post_log == pre_log + spec_frame(spec_rec_bytes(m))
        &&& post.model() == crate::recovery::apply_rec_model(pre.model(), m)
        &&& r == Response::Unit(Ok(()))
    } else {
        &&& post_log == pre_log
        &&& post == pre
        &&& r matches Response::Unit(res) && res matches Err(e) && e@ == "record too large"@
    }
}

} // verus!
