//! Startup recovery and the checkpoint flag. The flag is a single
//! persisted byte: `Clean` means a controlled shutdown completed and no
//! replay is needed; `Dirty` means the process ended without clearing it
//! and the write-ahead log must be replayed into the store before any
//! traffic is served.

use vstd::prelude::*;

use crate::store::{PairModel, StoreModel, StoreState};
use crate::wal::{spec_parse_wal, LogRecord, RecModel};

verus! {

/// The persisted one-byte checkpoint marker: `Clean` after a controlled
/// shutdown (no replay needed at startup), `Dirty` while running or after
/// a crash (the write-ahead log must be replayed).
#[derive(Clone, Copy, Debug, PartialEq, Eq, Structural)]
pub enum CheckpointFlag {
    Clean,
    Dirty,
}

impl CheckpointFlag {
    /// The single byte written to the checkpoint file for this flag.
    pub open spec fn spec_byte(self) -> u8 {
        match self {
            CheckpointFlag::Clean => 0,
            CheckpointFlag::Dirty => 1,
        }
    }

    /// Encodes the flag as the byte stored in the checkpoint file.
    pub fn byte(self) -> (b: u8)
        ensures
            b == self.spec_byte(),
    {
        match self {
            CheckpointFlag::Clean => 0,
            CheckpointFlag::Dirty => 1,
        }
    }

    /// Decodes a checkpoint file byte; any byte other than the two valid
    /// markers is rejected.
    pub fn from_byte(b: u8) -> (r: Option<CheckpointFlag>)
        ensures
            r == (if b == 0 {
                Some(CheckpointFlag::Clean)
            } else if b == 1 {
                Some(CheckpointFlag::Dirty)
            } else {
                None::<CheckpointFlag>
            }),
    {
        if b == 0 {
            Some(CheckpointFlag::Clean)
        } else if b == 1 {
            Some(CheckpointFlag::Dirty)
        } else {
            None
        }
    }
}

impl CheckpointFlag {
    /// What `from_byte` returns, as a spec function.
    pub open spec fn spec_from_byte(b: u8) -> Option<CheckpointFlag> {
        if b == 0 {
            Some(CheckpointFlag::Clean)
        } else if b == 1 {
            Some(CheckpointFlag::Dirty)
        } else {
            None
        }
    }
}

/// Writing a flag and reading it back yields the same flag.
pub proof fn lemma_flag_round_trip(f: CheckpointFlag)
    ensures
        CheckpointFlag::spec_from_byte(f.spec_byte()) == Some(f),
{
}

/// The effect of one logged record on the store model: stores and updates
/// upsert the pair (making the user known), deletes drop it.
pub open spec fn apply_rec_model(s: StoreModel, m: RecModel) -> StoreModel {
    match m {
        RecModel::Store { user, key, value } => StoreModel {
            kv: s.kv.insert((user, key), value),
            users: s.users.insert(user),
        },
        RecModel::Update { user, key, value } => StoreModel {
            kv: s.kv.insert((user, key), value),
            users: s.users.insert(user),
        },
        RecModel::Del { user, key } => StoreModel { kv: s.kv.remove((user, key)), users: s.users },
    }
}

/// Replaying a sequence of records in order, oldest first.
pub open spec fn replay_model(s: StoreModel, recs: Seq<RecModel>) -> StoreModel
    decreases recs.len(),
{
    if recs.len() == 0 {
        s
    } else {
        replay_model(apply_rec_model(s, recs[0]), recs.drop_first())
    }
}

/// Replay splits: replaying `pre + post` in one pass equals replaying
/// `pre` (reaching the snapshot's state) and then only the `post`
/// records. In particular, replaying the whole log against an empty state
/// and replaying post-snapshot records against the snapshot agree.
pub proof fn lemma_replay_split(s: StoreModel, pre: Seq<RecModel>, post: Seq<RecModel>)
    ensures
        replay_model(s, pre + post) == replay_model(replay_model(s, pre), post),
    decreases pre.len(),
{
    if pre.len() == 0 {
        assert(pre + post =~= post);
    } else {
        let s1 = apply_rec_model(s, pre[0]);
        assert((pre + post).drop_first() =~= pre.drop_first() + post);
        lemma_replay_split(s1, pre.drop_first(), post);
    }
}

/// Crash durability: replaying the read-back of an intact log reproduces
/// exactly the state the engine acknowledged, from any base the log was
/// started against.
pub proof fn lemma_recovery_reproduces_state(s: StoreModel, recs: Seq<RecModel>)
    requires
        forall|i: int| 0 <= i < recs.len() ==> crate::wal::rec_fits(#[trigger] recs[i]),
    ensures
        replay_model(s, spec_parse_wal(crate::wal::spec_wal_bytes(recs))) == replay_model(s, recs),
{
    crate::wal::lemma_wal_round_trip(recs);
}

/// The value a read of `p` observes in a store model.
pub open spec fn lookup(s: StoreModel, p: PairModel) -> Option<u64> {
    if s.kv.dom().contains(p) {
        Some(s.kv[p])
    } else {
        None
    }
}

/// Whether a record touches the pair `p`.
pub open spec fn touches(m: RecModel, p: PairModel) -> bool {
    m.user() == p.0 && m.key() == p.1
}

/// What a record leaves under its own pair: the stored value, or nothing
/// after a delete.
pub open spec fn write_effect(m: RecModel) -> Option<u64> {
    match m {
        RecModel::Store { value, .. } => Some(value),
        RecModel::Update { value, .. } => Some(value),
        RecModel::Del { .. } => None,
    }
}

/// The value left under `p` after the records run in order, starting from
/// `cur`: the effect of the most recent record touching `p`, if any.
pub open spec fn last_write(recs: Seq<RecModel>, p: PairModel, cur: Option<u64>) -> Option<u64>
    decreases recs.len(),
{
    if recs.len() == 0 {
        cur
    } else {
        last_write(
            recs.drop_first(),
            p,
            if touches(recs[0], p) {
                write_effect(recs[0])
            } else {
                cur
            },
        )
    }
}

/// Serializability: the single writer applies mutations in submission
/// order, so the value a read of (user, key) observes is exactly that of
/// the most recently applied store, update or delete of that pair — and
/// mutations of other pairs leave it untouched.
pub proof fn lemma_serializability(s: StoreModel, recs: Seq<RecModel>, p: PairModel)
    ensures
        lookup(replay_model(s, recs), p) == last_write(recs, p, lookup(s, p)),
    decreases recs.len(),
{
    if recs.len() > 0 {
        let s1 = apply_rec_model(s, recs[0]);
        assert(lookup(s1, p) == (if touches(recs[0], p) {
            write_effect(recs[0])
        } else {
            lookup(s, p)
        }));
        lemma_serializability(s1, recs.drop_first(), p);
    }
}

impl StoreState {
    /// Re-applies one already-logged record's effect directly to the
    /// state, bypassing the log.
    pub fn apply_record(&mut self, rec: &LogRecord)
        requires
            old(self).wf(),
        ensures
            final(self).wf(),
            final(self).model() == apply_rec_model(old(self).model(), rec.model()),
    {
        match rec {
            LogRecord::Store { user, key, value } => {
                let _ = self.store_values(user.clone(), key.clone(), *value);
            },
            LogRecord::Update { user, key, value } => {
                let _ = self.update_val(user.clone(), key.clone(), *value);
            },
            LogRecord::Del { user, key } => {
                let _ = self.delete_val(user.as_str(), key.as_str());
            },
        }
    }

    /// Replays decoded records into the state, oldest first.
    pub fn replay(&mut self, recs: &Vec<LogRecord>)
        requires
            old(self).wf(),
        ensures
            final(self).wf(),
            final(self).model() == replay_model(
                old(self).model(),
                recs@.map_values(|r: LogRecord| r.model()),
            ),
    {
        let ghost models = recs@.map_values(|r: LogRecord| r.model());
        let mut i: usize = 0;
        while i < recs.len()
            invariant
                i <= recs@.len(),
                models == recs@.map_values(|r: LogRecord| r.model()),
                self.wf(),
                self.model() == replay_model(old(self).model(), models.take(i as int)),
            decreases recs@.len() - i,
        {
            self.apply_record(&recs[i]);
            proof {
                lemma_replay_snoc(old(self).model(), models, i as int);
            }
            i = i + 1;
        }
        proof {
            assert(models.take(models.len() as int) =~= models);
        }
    }
}

// Extending a replay by one record applies that record to the replayed
// state.
pub(crate) proof fn lemma_replay_snoc(s: StoreModel, ms: Seq<RecModel>, i: int)
    requires
        0 <= i < ms.len(),
    ensures
        replay_model(s, ms.take(i + 1)) == apply_rec_model(replay_model(s, ms.take(i)), ms[i]),
{
    assert(ms.take(i + 1) =~= ms.take(i) + seq![ms[i]]);
    lemma_replay_split(s, ms.take(i), seq![ms[i]]);
    let s1 = replay_model(s, ms.take(i));
    let m = ms[i];
    let s2 = apply_rec_model(s1, m);
    assert(seq![m][0] == m);
    assert(seq![m].drop_first() =~= Seq::<RecModel>::empty());
    assert(replay_model(s1, seq![m]) == replay_model(s2, Seq::<RecModel>::empty()));
    assert(replay_model(s2, Seq::<RecModel>::empty()) == s2);
}

/// The startup recovery procedure, on the persisted bytes: inspect the
/// checkpoint flag; an absent flag file or a `Clean` flag means the base
/// state (the loaded snapshot) is already consistent and no replay runs;
/// a `Dirty` flag means every recoverable log record is replayed into it,
/// oldest first. An unreadable flag (empty file or unknown byte) is an
/// error. Returns the recovered state and whether a replay ran.
pub fn recover(base: StoreState, flag_bytes: Option<&Vec<u8>>, wal_bytes: &Vec<u8>) -> (r: Result<
    (StoreState, bool),
    String,
>)
    requires
        base.wf(),
    ensures
        match r {
            Ok(p) => {
                &&& p.0.wf()
                &&& (match flag_bytes {
                    None => p.0.model() == base.model() && p.1 == false,
                    Some(fb) => {
                        &&& fb@.len() > 0
                        &&& (fb@[0] == 0 || fb@[0] == 1)
                        &&& (fb@[0] == 0 ==> p.0.model() == base.model() && p.1 == false)
                        &&& (fb@[0] == 1 ==> p.1 == true && p.0.model() == replay_model(
                            base.model(),
                            spec_parse_wal(wal_bytes@),
                        ))
                    },
                })
            },
            Err(e) => {
                &&& (match flag_bytes {
                    None => false,
                    Some(fb) => fb@.len() == 0 || (fb@[0] != 0 && fb@[0] != 1),
                })
                &&& e@ == "Could not get status"@
            },
        },
{
    match flag_bytes {
        None => Ok((base, false)),
        Some(fb) => {
            if fb.len() == 0 {
                return Err("Could not get status".to_owned());
            }
            match CheckpointFlag::from_byte(fb[0]) {
                Some(CheckpointFlag::Clean) => Ok((base, false)),
                Some(CheckpointFlag::Dirty) => {
                    let recs = crate::wal::read_wal(wal_bytes.as_slice());
                    let mut s = base;
                    s.replay(&recs);
                    Ok((s, true))
                },
                None => Err("Could not get status".to_owned()),
            }
        },
    }
}

} // verus!
