//! The snapshot: a whole-state encoding of the store, written
//! periodically (and on demand) to a temporary file and atomically
//! renamed over the previous snapshot by the surrounding process. The
//! format is owned by this core: a count of users followed by their
//! encoded identifiers, then a count of entries followed by each entry's
//! user, key and value.

use vstd::prelude::*;

use crate::codec::{encode_str, parse_str, spec_encode_str, spec_parse_str, str_fits};
use crate::recovery::{apply_rec_model, lemma_replay_snoc, lemma_serializability, lookup};
use crate::recovery::{last_write, replay_model, touches, write_effect};
use crate::order::pair_lt;
use crate::store::{lemma_kv_map_index, PairModel, StoreModel, StoreState};
use crate::wal::RecModel;
use vstd::bytes::{
    lemma_auto_spec_u32_to_from_le_bytes, lemma_auto_spec_u64_to_from_le_bytes,
    spec_u32_from_le_bytes, spec_u32_to_le_bytes, spec_u64_from_le_bytes, spec_u64_to_le_bytes,
    u32_from_le_bytes, u32_to_le_bytes, u64_from_le_bytes, u64_to_le_bytes,
};
use vstd::slice::slice_subrange;

verus! {

/// The encoded run of user identifiers, in order.
pub open spec fn spec_encode_strs(ss: Seq<Seq<char>>) -> Seq<u8>
    decreases ss.len(),
{
    if ss.len() == 0 {
        Seq::empty()
    } else {
        spec_encode_str(ss[0]) + spec_encode_strs(ss.drop_first())
    }
}

/// The encoded form of one entry: user, key, then the 8-byte value.
pub open spec fn spec_encode_entry(e: (PairModel, u64)) -> Seq<u8> {
    spec_encode_str(e.0.0) + spec_encode_str(e.0.1) + spec_u64_to_le_bytes(e.1)
}

/// The encoded run of entries, in storage order.
pub open spec fn spec_encode_entries(es: Seq<(PairModel, u64)>) -> Seq<u8>
    decreases es.len(),
{
    if es.len() == 0 {
        Seq::empty()
    } else {
        spec_encode_entry(es[0]) + spec_encode_entries(es.drop_first())
    }
}

/// The whole snapshot image for a store with these users and entries.
pub open spec fn spec_snapshot_bytes(
    users: Seq<Seq<char>>,
    entries: Seq<(PairModel, u64)>,
) -> Seq<u8> {
    spec_u32_to_le_bytes(users.len() as u32) + spec_encode_strs(users) + spec_u32_to_le_bytes(
        entries.len() as u32,
    ) + spec_encode_entries(entries)
}

/// Whether a store is small enough to encode: counts under the 4-byte
/// headers, and every string under its own.
pub open spec fn snapshot_fits(s: StoreState) -> bool {
    &&& s.users@.len() <= u32::MAX
    &&& s.kv@.len() <= u32::MAX
    &&& forall|i: int| 0 <= i < s.users@.len() ==> str_fits(#[trigger] s.users@[i]@)
    &&& forall|i: int|
        0 <= i < s.kv@.len() ==> str_fits(#[trigger] s.kv@[i].user@) && str_fits(s.kv@[i].key@)
}

// Appending one more string to the run extends its encoding at the end.
proof fn lemma_encode_strs_snoc(ss: Seq<Seq<char>>, i: int)
    requires
        0 <= i < ss.len(),
    ensures
        spec_encode_strs(ss.take(i + 1)) == spec_encode_strs(ss.take(i)) + spec_encode_str(ss[i]),
    decreases i,
{
    if i == 0 {
        reveal_with_fuel(spec_encode_strs, 3);
        assert(ss.take(1).drop_first() =~= Seq::<Seq<char>>::empty());
        assert(ss.take(1)[0] == ss[0]);
        assert(ss.take(0) =~= Seq::<Seq<char>>::empty());
        assert(spec_encode_strs(ss.take(1)) =~= spec_encode_str(ss[0]));
        assert(spec_encode_strs(ss.take(0)) + spec_encode_str(ss[0]) =~= spec_encode_str(ss[0]));
    } else {
        lemma_encode_strs_snoc(ss.drop_first(), i - 1);
        assert(ss.take(i + 1).drop_first() =~= ss.drop_first().take(i));
        assert(ss.take(i).drop_first() =~= ss.drop_first().take(i - 1));
        assert(ss.take(i + 1)[0] == ss[0]);
        assert(ss.take(i)[0] == ss[0]);
        assert(ss.drop_first()[i - 1] == ss[i]);
        assert(spec_encode_str(ss[0]) + (spec_encode_strs(ss.drop_first().take(i - 1))
            + spec_encode_str(ss[i])) =~= (spec_encode_str(ss[0]) + spec_encode_strs(
            ss.drop_first().take(i - 1),
        )) + spec_encode_str(ss[i]));
    }
}

// Appending one more entry to the run extends its encoding at the end.
proof fn lemma_encode_entries_snoc(es: Seq<(PairModel, u64)>, i: int)
    requires
        0 <= i < es.len(),
    ensures
        spec_encode_entries(es.take(i + 1)) == spec_encode_entries(es.take(i)) + spec_encode_entry(
            es[i],
        ),
    decreases i,
{
    if i == 0 {
        reveal_with_fuel(spec_encode_entries, 3);
        assert(es.take(1).drop_first() =~= Seq::<(PairModel, u64)>::empty());
        assert(es.take(1)[0] == es[0]);
        assert(es.take(0) =~= Seq::<(PairModel, u64)>::empty());
        assert(spec_encode_entries(es.take(1)) =~= spec_encode_entry(es[0]));
        assert(spec_encode_entries(es.take(0)) + spec_encode_entry(es[0]) =~= spec_encode_entry(
            es[0],
        ));
    } else {
        lemma_encode_entries_snoc(es.drop_first(), i - 1);
        assert(es.take(i + 1).drop_first() =~= es.drop_first().take(i));
        assert(es.take(i).drop_first() =~= es.drop_first().take(i - 1));
        assert(es.take(i + 1)[0] == es[0]);
        assert(es.take(i)[0] == es[0]);
        assert(es.drop_first()[i - 1] == es[i]);
        assert(spec_encode_entry(es[0]) + (spec_encode_entries(es.drop_first().take(i - 1))
            + spec_encode_entry(es[i])) =~= (spec_encode_entry(es[0]) + spec_encode_entries(
            es.drop_first().take(i - 1),
        )) + spec_encode_entry(es[i]));
    }
}

impl StoreState {
    /// Whether the state is small enough to encode as a snapshot.
    pub fn check_snapshot_fits(&self) -> (b: bool)
        ensures
            b == snapshot_fits(*self),
    {
        if self.users.len() as u64 > 0xFFFF_FFFFu64 || self.kv.len() as u64 > 0xFFFF_FFFFu64 {
            return false;
        }
        let mut i: usize = 0;
        while i < self.users.len()
            invariant
                i <= self.users@.len(),
                self.users@.len() <= u32::MAX,
                self.kv@.len() <= u32::MAX,
                forall|j: int| 0 <= j < i ==> str_fits(#[trigger] self.users@[j]@),
            decreases self.users@.len() - i,
        {
            if self.users[i].as_str().as_bytes().len() as u64 > 0xFFFF_FFFFu64 {
                return false;
            }
            i = i + 1;
        }
        let mut i: usize = 0;
        while i < self.kv.len()
            invariant
                i <= self.kv@.len(),
                self.users@.len() <= u32::MAX,
                self.kv@.len() <= u32::MAX,
                forall|j: int| 0 <= j < self.users@.len() ==> str_fits(#[trigger] self.users@[j]@),
                forall|j: int| 0 <= j < i ==> str_fits(#[trigger] self.kv@[j].user@),
                forall|j: int| 0 <= j < i ==> str_fits(#[trigger] self.kv@[j].key@),
            decreases self.kv@.len() - i,
        {
            let e = &self.kv[i];
            if e.user.as_str().as_bytes().len() as u64 > 0xFFFF_FFFFu64 || e.key.as_str().as_bytes().len() as u64 > 0xFFFF_FFFFu64 {
                return false;
            }
            proof {
                assert(str_fits(self.kv@[i as int].user@));
                assert(str_fits(self.kv@[i as int].key@));
            }
            i = i + 1;
        }
        proof {
            assert(self.users@.len() <= u32::MAX);
            assert(self.kv@.len() <= u32::MAX);
            assert(forall|j: int| 0 <= j < self.users@.len() ==> str_fits(#[trigger] self.users@[j]@));
            assert forall|j: int|
                0 <= j < self.kv@.len() implies str_fits(#[trigger] self.kv@[j].user@) && str_fits(
                self.kv@[j].key@,
            ) by {
                assert(str_fits(self.kv@[j].user@));
                assert(str_fits(self.kv@[j].key@));
            }
            assert(snapshot_fits(*self));
        }
        true
    }

    /// Encodes the whole state as a snapshot image; a state too large for
    /// the length headers is refused with an error.
    pub fn snapshot_bytes(&self) -> (r: Result<Vec<u8>, String>)
        ensures
            (match r {
                Ok(b) => snapshot_fits(*self) && b@ == spec_snapshot_bytes(
                    self.users_view(),
                    self.entry_models(),
                ),
                Err(e) => !snapshot_fits(*self) && e@ == "state too large"@,
            }),
    {
        if !self.check_snapshot_fits() {
            return Err("state too large".to_owned());
        }
        let mut out: Vec<u8> = Vec::new();
        let nu = u32_to_le_bytes(self.users.len() as u32);
        out.extend_from_slice(nu.as_slice());
        let mut i: usize = 0;
        while i < self.users.len()
            invariant
                i <= self.users@.len(),
                snapshot_fits(*self),
                out@ == spec_u32_to_le_bytes(self.users@.len() as u32) + spec_encode_strs(
                    self.users_view().take(i as int),
                ),
            decreases self.users@.len() - i,
        {
            let ghost pre = out@;
            encode_str(&mut out, self.users[i].as_str());
            proof {
                lemma_encode_strs_snoc(self.users_view(), i as int);
                assert(self.users_view()[i as int] == self.users@[i as int]@);
                assert(out@ =~= spec_u32_to_le_bytes(self.users@.len() as u32)
                    + spec_encode_strs(self.users_view().take(i as int + 1)));
            }
            i = i + 1;
        }
        proof {
            assert(self.users_view().take(self.users@.len() as int) =~= self.users_view());
        }
        let ne = u32_to_le_bytes(self.kv.len() as u32);
        out.extend_from_slice(ne.as_slice());
        let ghost head = spec_u32_to_le_bytes(self.users@.len() as u32) + spec_encode_strs(
            self.users_view(),
        ) + spec_u32_to_le_bytes(self.kv@.len() as u32);
        proof {
            assert(out@ =~= head);
        }
        let mut i: usize = 0;
        while i < self.kv.len()
            invariant
                i <= self.kv@.len(),
                snapshot_fits(*self),
                head == spec_u32_to_le_bytes(self.users@.len() as u32) + spec_encode_strs(
                    self.users_view(),
                ) + spec_u32_to_le_bytes(self.kv@.len() as u32),
                out@ == head + spec_encode_entries(self.entry_models().take(i as int)),
            decreases self.kv@.len() - i,
        {
            let e = &self.kv[i];
            encode_str(&mut out, e.user.as_str());
            encode_str(&mut out, e.key.as_str());
            let vb = u64_to_le_bytes(e.value);
            out.extend_from_slice(vb.as_slice());
            proof {
                lemma_encode_entries_snoc(self.entry_models(), i as int);
                assert(self.entry_models()[i as int] == self.kv@[i as int].model());
                assert(out@ =~= head + spec_encode_entries(
                    self.entry_models().take(i as int + 1),
                ));
            }
            i = i + 1;
        }
        proof {
            assert(self.entry_models().take(self.kv@.len() as int) =~= self.entry_models());
            assert(out@ =~= spec_snapshot_bytes(self.users_view(), self.entry_models()));
        }
        Ok(out)
    }
}

/// Reads `n` encoded strings from the front of `b`.
pub open spec fn spec_parse_strs(b: Seq<u8>, n: nat) -> Option<(Seq<Seq<char>>, Seq<u8>)>
    decreases n,
{
    if n == 0 {
        Some((Seq::empty(), b))
    } else {
        match spec_parse_str(b) {
            None => None,
            Some(p) => match spec_parse_strs(p.1, (n - 1) as nat) {
                None => None,
                Some(q) => Some((seq![p.0] + q.0, q.1)),
            },
        }
    }
}

/// Reads one encoded entry — user, key, 8-byte value — from the front of
/// `b`.
pub open spec fn spec_parse_entry(b: Seq<u8>) -> Option<((PairModel, u64), Seq<u8>)> {
    match spec_parse_str(b) {
        None => None,
        Some(p) => match spec_parse_str(p.1) {
            None => None,
            Some(q) => {
                if q.1.len() < 8 {
                    None
                } else {
                    Some((((p.0, q.0), spec_u64_from_le_bytes(q.1.take(8))), q.1.skip(8)))
                }
            },
        },
    }
}

/// Reads `n` encoded entries from the front of `b`.
pub open spec fn spec_parse_entries(b: Seq<u8>, n: nat) -> Option<(Seq<(PairModel, u64)>, Seq<u8>)>
    decreases n,
{
    if n == 0 {
        Some((Seq::empty(), b))
    } else {
        match spec_parse_entry(b) {
            None => None,
            Some(p) => match spec_parse_entries(p.1, (n - 1) as nat) {
                None => None,
                Some(q) => Some((seq![p.0] + q.0, q.1)),
            },
        }
    }
}

/// Decodes a whole snapshot image: the user list and the entry list.
/// Trailing bytes are an error.
pub open spec fn spec_parse_snapshot(b: Seq<u8>) -> Option<
    (Seq<Seq<char>>, Seq<(PairModel, u64)>),
> {
    if b.len() < 4 {
        None
    } else {
        let nu = spec_u32_from_le_bytes(b.take(4));
        match spec_parse_strs(b.skip(4), nu as nat) {
            None => None,
            Some(p) => {
                if p.1.len() < 4 {
                    None
                } else {
                    let ne = spec_u32_from_le_bytes(p.1.take(4));
                    match spec_parse_entries(p.1.skip(4), ne as nat) {
                        None => None,
                        Some(q) => {
                            if q.1.len() == 0 {
                                Some((p.0, q.0))
                            } else {
                                None
                            }
                        },
                    }
                }
            },
        }
    }
}

// Parsing a run of encoded strings undoes encoding it.
proof fn lemma_parse_encode_strs(ss: Seq<Seq<char>>, rest: Seq<u8>)
    requires
        forall|i: int| 0 <= i < ss.len() ==> str_fits(#[trigger] ss[i]),
    ensures
        spec_parse_strs(spec_encode_strs(ss) + rest, ss.len() as nat) == Some((ss, rest)),
    decreases ss.len(),
{
    if ss.len() == 0 {
        assert(spec_encode_strs(ss) + rest =~= rest);
    } else {
        let tail_bytes = spec_encode_strs(ss.drop_first()) + rest;
        assert(spec_encode_strs(ss) + rest =~= spec_encode_str(ss[0]) + tail_bytes);
        crate::codec::lemma_parse_encode_str(ss[0], tail_bytes);
        lemma_parse_encode_strs(ss.drop_first(), rest);
        assert(seq![ss[0]] + ss.drop_first() =~= ss);
    }
}

// Parsing one encoded entry undoes encoding it.
proof fn lemma_parse_encode_entry(e: (PairModel, u64), rest: Seq<u8>)
    requires
        str_fits(e.0.0),
        str_fits(e.0.1),
    ensures
        spec_parse_entry(spec_encode_entry(e) + rest) == Some((e, rest)),
{
    lemma_auto_spec_u64_to_from_le_bytes();
    let vb = spec_u64_to_le_bytes(e.1);
    assert(spec_encode_entry(e) + rest =~= spec_encode_str(e.0.0) + (spec_encode_str(e.0.1) + (vb
        + rest)));
    crate::codec::lemma_parse_encode_str(e.0.0, spec_encode_str(e.0.1) + (vb + rest));
    crate::codec::lemma_parse_encode_str(e.0.1, vb + rest);
    assert((vb + rest).take(8) =~= vb);
    assert((vb + rest).skip(8) =~= rest);
}

// Parsing a run of encoded entries undoes encoding it.
proof fn lemma_parse_encode_entries(es: Seq<(PairModel, u64)>, rest: Seq<u8>)
    requires
        forall|i: int|
            0 <= i < es.len() ==> str_fits(#[trigger] es[i].0.0) && str_fits(es[i].0.1),
    ensures
        spec_parse_entries(spec_encode_entries(es) + rest, es.len() as nat) == Some((es, rest)),
    decreases es.len(),
{
    if es.len() == 0 {
        assert(spec_encode_entries(es) + rest =~= rest);
    } else {
        let tail_bytes = spec_encode_entries(es.drop_first()) + rest;
        assert(spec_encode_entries(es) + rest =~= spec_encode_entry(es[0]) + tail_bytes);
        lemma_parse_encode_entry(es[0], tail_bytes);
        lemma_parse_encode_entries(es.drop_first(), rest);
        assert(seq![es[0]] + es.drop_first() =~= es);
    }
}

/// The synthetic store record an entry stands for when a decoded snapshot
/// is rebuilt.
pub open spec fn entry_rec(e: (PairModel, u64)) -> RecModel {
    RecModel::Store { user: e.0.0, key: e.0.1, value: e.1 }
}

/// The store model a decoded snapshot denotes: the listed users, and the
/// listed entries replayed as stores into an empty map.
pub open spec fn spec_rebuild(us: Seq<Seq<char>>, es: Seq<(PairModel, u64)>) -> StoreModel {
    replay_model(
        StoreModel { kv: Map::empty(), users: us.to_set() },
        es.map_values(|e: (PairModel, u64)| entry_rec(e)),
    )
}

// Pushing onto a sequence inserts into the set it denotes.
proof fn lemma_to_set_push<A>(s: Seq<A>, x: A)
    ensures
        s.push(x).to_set() == s.to_set().insert(x),
{
    assert forall|y: A| s.push(x).to_set().contains(y) implies s.to_set().contains(y) || y
        == x by {
        let i = choose|i: int| 0 <= i < s.push(x).len() && s.push(x)[i] == y;
        if i < s.len() {
            assert(s[i] == y);
        }
    }
    assert forall|y: A| s.to_set().contains(y) implies s.push(x).to_set().contains(y) by {
        let i = choose|i: int| 0 <= i < s.len() && s[i] == y;
        assert(s.push(x)[i] == y);
    }
    assert(s.push(x)[s.len() as int] == x);
    assert(s.push(x).to_set() =~= s.to_set().insert(x));
}

impl StoreState {
    /// Decodes a snapshot image into a fresh, well-formed store: the
    /// listed users become known and the listed entries are stored in
    /// order. Any malformed image is refused.
    #[verifier::loop_isolation(false)]
    pub fn decode_snapshot(bytes: &[u8]) -> (r: Option<StoreState>)
        ensures
            (match r {
                Some(s) => {
                    &&& s.wf()
                    &&& spec_parse_snapshot(bytes@) matches Some(p) && s.model() == spec_rebuild(
                        p.0,
                        p.1,
                    )
                },
                None => spec_parse_snapshot(bytes@) is None,
            }),
    {
        let mut s = StoreState::new();
        if bytes.len() < 4 {
            return None;
        }
        let nu = u32_from_le_bytes(slice_subrange(bytes, 0, 4));
        proof {
            assert(bytes@.subrange(0, 4) =~= bytes@.take(4));
        }
        let mut off: usize = 4;
        let mut k: u32 = 0;
        let ghost us_acc = Seq::<Seq<char>>::empty();
        proof {
            assert(bytes@.skip(4) =~= bytes@.skip(off as int));
        }
        while k < nu
            invariant
                k <= nu,
                off <= bytes@.len(),
                s.wf(),
                s.kv@.len() == 0,
                us_acc.len() == k,
                s.users_set() == us_acc.to_set(),
                (match spec_parse_strs(bytes@.skip(off as int), (nu - k) as nat) {
                    None => spec_parse_strs(bytes@.skip(4), nu as nat) is None,
                    Some(q) => spec_parse_strs(bytes@.skip(4), nu as nat) == Some(
                        (us_acc + q.0, q.1),
                    ),
                }),
            decreases nu - k,
        {
            let ghost pre_acc = us_acc;
            match parse_str(bytes, off) {
                None => {
                    proof {
                        assert(spec_parse_strs(bytes@.skip(off as int), (nu - k) as nat) is None);
                        assert(spec_parse_snapshot(bytes@) is None);
                    }
                    return None;
                },
                Some((u, off2)) => {
                    proof {
                        lemma_to_set_push(us_acc, u@);
                    }
                    s.ensure_user(u.as_str());
                    proof {
                        us_acc = us_acc.push(u@);
                        let cur = bytes@.skip(off as int);
                        let nxt = bytes@.skip(off2 as int);
                        let opt = spec_parse_strs(nxt, (nu - k - 1) as nat);
                        if opt is Some {
                            let q2 = opt.unwrap();
                            assert(spec_parse_strs(cur, (nu - k) as nat) == Some(
                                (seq![u@] + q2.0, q2.1),
                            ));
                            assert(pre_acc + (seq![u@] + q2.0) =~= us_acc + q2.0);
                        }
                    }
                    off = off2;
                },
            }
            k = k + 1;
        }
        proof {
            assert(spec_parse_strs(bytes@.skip(off as int), 0) == Some(
                (Seq::<Seq<char>>::empty(), bytes@.skip(off as int)),
            ));
            assert(us_acc + Seq::<Seq<char>>::empty() =~= us_acc);
            assert(spec_parse_strs(bytes@.skip(4), nu as nat) == Some(
                (us_acc, bytes@.skip(off as int)),
            ));
        }
        let ghost mid = bytes@.skip(off as int);
        if bytes.len() - off < 4 {
            proof {
                assert(mid.len() < 4);
                assert(spec_parse_snapshot(bytes@) is None);
            }
            return None;
        }
        let ne = u32_from_le_bytes(slice_subrange(bytes, off, off + 4));
        proof {
            assert(bytes@.subrange(off as int, off as int + 4) =~= mid.take(4));
        }
        let entries_start = off + 4;
        proof {
            assert(bytes@.skip(entries_start as int) =~= mid.skip(4));
        }
        let mut off: usize = entries_start;
        let mut k: u32 = 0;
        let ghost es_acc = Seq::<(PairModel, u64)>::empty();
        let ghost base = s.model();
        proof {
            assert(es_acc.map_values(|e: (PairModel, u64)| entry_rec(e))
                =~= Seq::<RecModel>::empty());
            assert(s.kv_map() =~= Map::<PairModel, u64>::empty());
            assert(base == StoreModel {
                kv: Map::<PairModel, u64>::empty(),
                users: us_acc.to_set(),
            });
        }
        while k < ne
            invariant
                k <= ne,
                off <= bytes@.len(),
                s.wf(),
                es_acc.len() == k,
                s.model() == replay_model(
                    base,
                    es_acc.map_values(|e: (PairModel, u64)| entry_rec(e)),
                ),
                (match spec_parse_entries(bytes@.skip(off as int), (ne - k) as nat) {
                    None => spec_parse_entries(bytes@.skip(entries_start as int), ne as nat)
                        is None,
                    Some(q) => spec_parse_entries(bytes@.skip(entries_start as int), ne as nat)
                        == Some((es_acc + q.0, q.1)),
                }),
            decreases ne - k,
        {
            let ghost pre_acc = es_acc;
            let ghost cur = bytes@.skip(off as int);
            let (u, off2) = match parse_str(bytes, off) {
                Some(p) => p,
                None => {
                    proof {
                        assert(spec_parse_entry(cur) is None);
                        assert(spec_parse_entries(cur, (ne - k) as nat) is None);
                        assert(spec_parse_snapshot(bytes@) is None);
                    }
                    return None;
                },
            };
            let (key, off3) = match parse_str(bytes, off2) {
                Some(p) => p,
                None => {
                    proof {
                        assert(spec_parse_entry(cur) is None);
                        assert(spec_parse_entries(cur, (ne - k) as nat) is None);
                        assert(spec_parse_snapshot(bytes@) is None);
                    }
                    return None;
                },
            };
            if bytes.len() - off3 < 8 {
                proof {
                    assert(bytes@.skip(off3 as int).len() < 8);
                    assert(spec_parse_entry(cur) is None);
                    assert(spec_parse_entries(cur, (ne - k) as nat) is None);
                    assert(spec_parse_snapshot(bytes@) is None);
                }
                return None;
            }
            let vslice = slice_subrange(bytes, off3, off3 + 8);
            proof {
                assert(vslice@ =~= bytes@.skip(off3 as int).take(8));
            }
            let value = u64_from_le_bytes(vslice);
            let off4 = off3 + 8;
            proof {
                assert(bytes@.skip(off4 as int) =~= bytes@.skip(off3 as int).skip(8));
            }
            let ghost e_model: (PairModel, u64) = ((u@, key@), value);
            proof {
                assert(spec_parse_entry(cur) == Some((e_model, bytes@.skip(off4 as int))));
            }
            let ghost pre_model = s.model();
            let _ = self_store(&mut s, u, key, value);
            proof {
                es_acc = es_acc.push(e_model);
                let ms = es_acc.map_values(|e: (PairModel, u64)| entry_rec(e));
                assert(ms.take(k as int) =~= pre_acc.map_values(
                    |e: (PairModel, u64)| entry_rec(e),
                ));
                assert(ms.take(k as int + 1) =~= ms);
                assert(ms[k as int] == entry_rec(e_model));
                assert(s.model() == apply_rec_model(pre_model, entry_rec(e_model)));
                lemma_replay_snoc(base, ms, k as int);
                let nxt = bytes@.skip(off4 as int);
                let opt = spec_parse_entries(nxt, (ne - k - 1) as nat);
                if opt is Some {
                    let q2 = opt.unwrap();
                    assert(spec_parse_entries(cur, (ne - k) as nat) == Some(
                        (seq![e_model] + q2.0, q2.1),
                    ));
                    assert(pre_acc + (seq![e_model] + q2.0) =~= es_acc + q2.0);
                }
            }
            off = off4;
            k = k + 1;
        }
        proof {
            assert(spec_parse_entries(bytes@.skip(off as int), 0) == Some(
                (Seq::<(PairModel, u64)>::empty(), bytes@.skip(off as int)),
            ));
            assert(es_acc + Seq::<(PairModel, u64)>::empty() =~= es_acc);
        }
        if bytes.len() - off != 0 {
            proof {
                assert(bytes@.skip(off as int).len() != 0);
                assert(spec_parse_snapshot(bytes@) is None);
            }
            return None;
        }
        proof {
            assert(bytes@.skip(off as int).len() == 0);
            assert(spec_parse_snapshot(bytes@) == Some((us_acc, es_acc)));
            assert(s.model() == spec_rebuild(us_acc, es_acc));
        }
        Some(s)
    }
}

// Replaying store records whose users are already known keeps the user
// set unchanged.
proof fn lemma_replay_users(s0: StoreModel, ms: Seq<RecModel>)
    requires
        forall|i: int| 0 <= i < ms.len() ==> s0.users.contains((#[trigger] ms[i]).user()),
    ensures
        replay_model(s0, ms).users == s0.users,
    decreases ms.len(),
{
    if ms.len() > 0 {
        let s1 = apply_rec_model(s0, ms[0]);
        assert(s1.users =~= s0.users);
        lemma_replay_users(s1, ms.drop_first());
    }
}

// If no record touches `p`, its value never moves.
proof fn lemma_last_write_none(ms: Seq<RecModel>, p: PairModel, cur: Option<u64>)
    requires
        forall|j: int| 0 <= j < ms.len() ==> !touches(#[trigger] ms[j], p),
    ensures
        last_write(ms, p, cur) == cur,
    decreases ms.len(),
{
    if ms.len() > 0 {
        lemma_last_write_none(ms.drop_first(), p, cur);
    }
}

// If exactly one record touches `p`, its effect is what remains.
proof fn lemma_last_write_single(ms: Seq<RecModel>, p: PairModel, i: int, cur: Option<u64>)
    requires
        0 <= i < ms.len(),
        touches(ms[i], p),
        forall|j: int| 0 <= j < ms.len() && j != i ==> !touches(#[trigger] ms[j], p),
    ensures
        last_write(ms, p, cur) == write_effect(ms[i]),
    decreases ms.len(),
{
    if i == 0 {
        assert(forall|j: int|
            0 <= j < ms.drop_first().len() ==> !touches(#[trigger] ms.drop_first()[j], p));
        lemma_last_write_none(ms.drop_first(), p, write_effect(ms[0]));
    } else {
        assert(ms.drop_first()[i - 1] == ms[i]);
        lemma_last_write_single(ms.drop_first(), p, i - 1, cur);
    }
}

/// The snapshot round trip: the image a well-formed store encodes parses
/// back to exactly its users and entries, and rebuilding from those
/// yields the very store model the snapshot was taken from.
pub proof fn lemma_snapshot_round_trip(s: StoreState)
    requires
        s.wf(),
        snapshot_fits(s),
    ensures
        spec_parse_snapshot(spec_snapshot_bytes(s.users_view(), s.entry_models())) == Some(
            (s.users_view(), s.entry_models()),
        ),
        spec_rebuild(s.users_view(), s.entry_models()) == s.model(),
{
    lemma_auto_spec_u32_to_from_le_bytes();
    let us = s.users_view();
    let es = s.entry_models();
    assert forall|i: int| 0 <= i < us.len() implies str_fits(#[trigger] us[i]) by {
        assert(us[i] == s.users@[i]@);
    }
    assert forall|i: int|
        0 <= i < es.len() implies str_fits(#[trigger] es[i].0.0) && str_fits(es[i].0.1) by {
        assert(es[i] == s.kv@[i].model());
    }
    // The bytes parse back to (us, es).
    let b = spec_snapshot_bytes(us, es);
    let mid = spec_u32_to_le_bytes(es.len() as u32) + spec_encode_entries(es);
    assert(b.take(4) =~= spec_u32_to_le_bytes(us.len() as u32));
    assert(b.skip(4) =~= spec_encode_strs(us) + mid);
    lemma_parse_encode_strs(us, mid);
    assert(mid.take(4) =~= spec_u32_to_le_bytes(es.len() as u32));
    assert(mid.skip(4) =~= spec_encode_entries(es) + Seq::<u8>::empty());
    lemma_parse_encode_entries(es, Seq::empty());
    assert(spec_parse_snapshot(b) == Some((us, es)));
    // Rebuilding (us, es) yields the very model the snapshot was taken from.
    let base = StoreModel { kv: Map::<PairModel, u64>::empty(), users: us.to_set() };
    let ms = es.map_values(|e: (PairModel, u64)| entry_rec(e));
    let reb = replay_model(base, ms);
    assert forall|i: int| 0 <= i < ms.len() implies base.users.contains(
        (#[trigger] ms[i]).user(),
    ) by {
        assert(ms[i] == entry_rec(es[i]));
        assert(es[i] == s.kv@[i].model());
        assert(s.users_set().contains(s.kv@[i].user@));
    }
    lemma_replay_users(base, ms);
    assert(base.users == s.users_set());
    assert forall|q: PairModel| true implies lookup(reb, q) == lookup(s.model(), q) by {
        lemma_serializability(base, ms, q);
        assert(lookup(base, q) is None);
        if s.contains_pair(q) {
            let i = choose|i: int| 0 <= i < s.kv@.len() && s.kv@[i].pair() == q;
            assert(es[i] == s.kv@[i].model());
            assert(touches(ms[i], q));
            assert forall|j: int|
                0 <= j < ms.len() && j != i implies !touches(#[trigger] ms[j], q) by {
                assert(es[j] == s.kv@[j].model());
                if j < i {
                    assert(pair_lt(s.kv@[j].pair(), s.kv@[i].pair()));
                } else {
                    assert(pair_lt(s.kv@[i].pair(), s.kv@[j].pair()));
                }
                crate::order::lemma_pair_trichotomy(s.kv@[j].pair(), q);
            }
            lemma_last_write_single(ms, q, i, None);
            lemma_kv_map_index(s, i);
            assert(lookup(s.model(), q) == Some(s.kv@[i].value));
        } else {
            assert forall|j: int| 0 <= j < ms.len() implies !touches(#[trigger] ms[j], q) by {
                assert(es[j] == s.kv@[j].model());
                assert(s.kv@[j].pair() != q);
            }
            lemma_last_write_none(ms, q, None);
            assert(!s.kv_map().dom().contains(q));
        }
    }
    assert forall|q: PairModel| #[trigger] reb.kv.dom().contains(q) implies s.model()
        .kv.dom().contains(q) && reb.kv[q] == s.model().kv[q] by {
        assert(lookup(reb, q) == lookup(s.model(), q));
    }
    assert forall|q: PairModel| #[trigger] s.model().kv.dom().contains(q) implies reb
        .kv.dom().contains(q) by {
        assert(lookup(reb, q) == lookup(s.model(), q));
    }
    assert(reb.kv =~= s.model().kv);
}

// A helper making the upsert's model step explicit for the decoder.
fn self_store(s: &mut StoreState, user: String, key: String, value: u64) -> (r: Result<(), String>)
    requires
        old(s).wf(),
    ensures
        final(s).wf(),
        final(s).model() == apply_rec_model(
            old(s).model(),
            RecModel::Store { user: user@, key: key@, value },
        ),
{
    s.store_values(user, key, value)
}

} // verus!
