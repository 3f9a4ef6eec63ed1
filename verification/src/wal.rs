//! The write-ahead log: every mutating command is appended as one
//! length-prefixed record, `[4-byte little-endian length][record bytes]`.
//! Read-back scans records from the start and stops at the first
//! truncated or undecodable record, so a torn final write never corrupts
//! what came before it.

use vstd::prelude::*;

use crate::codec::{
    lemma_parse_encode_str, parse_str, spec_encode_str, spec_parse_str, str_fits, encode_str,
};
use vstd::bytes::{
    lemma_auto_spec_u32_to_from_le_bytes, lemma_auto_spec_u64_to_from_le_bytes,
    spec_u32_from_le_bytes, spec_u32_to_le_bytes, spec_u64_from_le_bytes, spec_u64_to_le_bytes,
    u32_from_le_bytes, u32_to_le_bytes, u64_from_le_bytes, u64_to_le_bytes,
};
use vstd::slice::slice_subrange;

verus! {

/// One durable record: a mutating command, as logged before its effect is
/// applied to the store.
#[derive(Debug, PartialEq)]
pub enum LogRecord {
    Store { user: String, key: String, value: u64 },
    Update { user: String, key: String, value: u64 },
    Del { user: String, key: String },
}

/// A log record as pure data.
pub enum RecModel {
    Store { user: Seq<char>, key: Seq<char>, value: u64 },
    Update { user: Seq<char>, key: Seq<char>, value: u64 },
    Del { user: Seq<char>, key: Seq<char> },
}

impl LogRecord {
    /// The record as pure data.
    pub open spec fn model(self) -> RecModel {
        match self {
            LogRecord::Store { user, key, value } => RecModel::Store {
                user: user@,
                key: key@,
                value,
            },
            LogRecord::Update { user, key, value } => RecModel::Update {
                user: user@,
                key: key@,
                value,
            },
            LogRecord::Del { user, key } => RecModel::Del { user: user@, key: key@ },
        }
    }
}

impl RecModel {
    /// The user the record belongs to.
    pub open spec fn user(self) -> Seq<char> {
        match self {
            RecModel::Store { user, .. } => user,
            RecModel::Update { user, .. } => user,
            RecModel::Del { user, .. } => user,
        }
    }

    /// The key the record touches.
    pub open spec fn key(self) -> Seq<char> {
        match self {
            RecModel::Store { key, .. } => key,
            RecModel::Update { key, .. } => key,
            RecModel::Del { key, .. } => key,
        }
    }
}

// Record body tags.
pub const TAG_STORE: u8 = 1;

pub const TAG_UPDATE: u8 = 2;

pub const TAG_DEL: u8 = 3;

/// The encoded body of one record (without the outer length header).
pub open spec fn spec_rec_bytes(m: RecModel) -> Seq<u8> {
    match m {
        RecModel::Store { user, key, value } => seq![TAG_STORE] + spec_encode_str(user)
            + spec_encode_str(key) + spec_u64_to_le_bytes(value),
        RecModel::Update { user, key, value } => seq![TAG_UPDATE] + spec_encode_str(user)
            + spec_encode_str(key) + spec_u64_to_le_bytes(value),
        RecModel::Del { user, key } => seq![TAG_DEL] + spec_encode_str(user) + spec_encode_str(
            key,
        ),
    }
}

/// Whether a record's strings, and its whole body, fit under the 4-byte
/// length headers.
pub open spec fn rec_fits(m: RecModel) -> bool {
    &&& str_fits(m.user())
    &&& str_fits(m.key())
    &&& spec_rec_bytes(m).len() <= u32::MAX
}

/// Decodes one record body; trailing bytes inside the body are an error.
pub open spec fn spec_parse_rec(b: Seq<u8>) -> Option<RecModel> {
    if b.len() < 1 {
        None
    } else {
        let tag = b[0];
        match spec_parse_str(b.drop_first()) {
            None => None,
            Some((user, r1)) => match spec_parse_str(r1) {
                None => None,
                Some((key, r2)) => {
                    if tag == TAG_STORE || tag == TAG_UPDATE {
                        if r2.len() == 8 {
                            let value = spec_u64_from_le_bytes(r2);
                            if tag == TAG_STORE {
                                Some(RecModel::Store { user, key, value })
                            } else {
                                Some(RecModel::Update { user, key, value })
                            }
                        } else {
                            None
                        }
                    } else if tag == TAG_DEL {
                        if r2.len() == 0 {
                            Some(RecModel::Del { user, key })
                        } else {
                            None
                        }
                    } else {
                        None
                    }
                },
            },
        }
    }
}

/// Decoding a record body undoes encoding it.
pub proof fn lemma_rec_round_trip(m: RecModel)
    requires
        rec_fits(m),
    ensures
        spec_parse_rec(spec_rec_bytes(m)) == Some(m),
{
    lemma_auto_spec_u64_to_from_le_bytes();
    let b = spec_rec_bytes(m);
    match m {
        RecModel::Store { user, key, value } => {
            assert(b.drop_first() =~= spec_encode_str(user) + (spec_encode_str(key)
                + spec_u64_to_le_bytes(value)));
            lemma_parse_encode_str(user, spec_encode_str(key) + spec_u64_to_le_bytes(value));
            lemma_parse_encode_str(key, spec_u64_to_le_bytes(value));
        },
        RecModel::Update { user, key, value } => {
            assert(b.drop_first() =~= spec_encode_str(user) + (spec_encode_str(key)
                + spec_u64_to_le_bytes(value)));
            lemma_parse_encode_str(user, spec_encode_str(key) + spec_u64_to_le_bytes(value));
            lemma_parse_encode_str(key, spec_u64_to_le_bytes(value));
        },
        RecModel::Del { user, key } => {
            assert(b.drop_first() =~= spec_encode_str(user) + (spec_encode_str(key)
                + Seq::<u8>::empty()));
            lemma_parse_encode_str(user, spec_encode_str(key) + Seq::<u8>::empty());
            lemma_parse_encode_str(key, Seq::<u8>::empty());
            assert(spec_encode_str(key) + Seq::<u8>::empty() =~= spec_encode_str(key));
        },
    }
}

/// One framed record as it stands in the log file.
pub open spec fn spec_frame(rb: Seq<u8>) -> Seq<u8> {
    spec_u32_to_le_bytes(rb.len() as u32) + rb
}

/// The whole log file for a sequence of records.
pub open spec fn spec_wal_bytes(recs: Seq<RecModel>) -> Seq<u8>
    decreases recs.len(),
{
    if recs.len() == 0 {
        Seq::empty()
    } else {
        spec_frame(spec_rec_bytes(recs[0])) + spec_wal_bytes(recs.drop_first())
    }
}

/// The greedy read-back: decode framed records from the start; a
/// truncated header, a length past end-of-file, or an undecodable body
/// ends the scan, keeping everything decoded so far.
pub open spec fn spec_parse_wal(b: Seq<u8>) -> Seq<RecModel>
    decreases b.len(),
{
    if b.len() < 4 {
        Seq::empty()
    } else {
        let n = spec_u32_from_le_bytes(b.take(4)) as int;
        if 4 + n > b.len() {
            Seq::empty()
        } else {
            match spec_parse_rec(b.subrange(4, 4 + n)) {
                None => Seq::empty(),
                Some(m) => seq![m] + spec_parse_wal(b.skip(4 + n)),
            }
        }
    }
}

/// Appends one framed record to the log bytes.
pub fn append_record(log: &mut Vec<u8>, rec: &LogRecord)
    requires
        rec_fits(rec.model()),
    ensures
        final(log)@ == old(log)@ + spec_frame(spec_rec_bytes(rec.model())),
{
    let mut body: Vec<u8> = Vec::new();
    match rec {
        LogRecord::Store { user, key, value } => {
            body.push(TAG_STORE);
            encode_str(&mut body, user.as_str());
            encode_str(&mut body, key.as_str());
            let vb = u64_to_le_bytes(*value);
            body.extend_from_slice(vb.as_slice());
            proof {
                assert(body@ =~= spec_rec_bytes(rec.model()));
            }
        },
        LogRecord::Update { user, key, value } => {
            body.push(TAG_UPDATE);
            encode_str(&mut body, user.as_str());
            encode_str(&mut body, key.as_str());
            let vb = u64_to_le_bytes(*value);
            body.extend_from_slice(vb.as_slice());
            proof {
                assert(body@ =~= spec_rec_bytes(rec.model()));
            }
        },
        LogRecord::Del { user, key } => {
            body.push(TAG_DEL);
            encode_str(&mut body, user.as_str());
            encode_str(&mut body, key.as_str());
            proof {
                assert(body@ =~= spec_rec_bytes(rec.model()));
            }
        },
    }
    let n32 = body.len() as u32;
    let len_bytes = u32_to_le_bytes(n32);
    log.extend_from_slice(len_bytes.as_slice());
    log.extend_from_slice(body.as_slice());
    proof {
        assert(final(log)@ =~= old(log)@ + spec_frame(spec_rec_bytes(rec.model())));
    }
}

/// Whether a record's strings and body fit under the length headers; a
/// record refused here cannot be logged.
pub fn check_record_fits(rec: &LogRecord) -> (b: bool)
    ensures
        b == rec_fits(rec.model()),
{
    let (user, key, extra): (&String, &String, u64) = match rec {
        LogRecord::Store { user, key, .. } => (user, key, 8),
        LogRecord::Update { user, key, .. } => (user, key, 8),
        LogRecord::Del { user, key } => (user, key, 0),
    };
    let ulen = user.as_str().as_bytes().len();
    let klen = key.as_str().as_bytes().len();
    proof {
        lemma_auto_spec_u64_to_from_le_bytes();
        lemma_auto_spec_u32_to_from_le_bytes();
        let m = rec.model();
        assert(spec_rec_bytes(m).len() == 9 + extra + ulen + klen);
    }
    if ulen as u64 > 0xFFFF_FFFFu64 || klen as u64 > 0xFFFF_FFFFu64 {
        return false;
    }
    let total: u64 = 1 + 4 + 4 + extra + ulen as u64 + klen as u64;
    total <= 0xFFFF_FFFFu64
}

/// Decodes one record body; `None` on any malformed byte sequence.
pub fn parse_record(bytes: &[u8]) -> (r: Option<LogRecord>)
    ensures
        match r {
            Some(rec) => spec_parse_rec(bytes@) == Some(rec.model()),
            None => spec_parse_rec(bytes@) is None,
        },
{
    if bytes.len() < 1 {
        return None;
    }
    let tag = *vstd::slice::slice_index_get(bytes, 0);
    let ghost b = bytes@;
    proof {
        assert(bytes@.skip(1) =~= b.drop_first());
    }
    let (user, off1) = match parse_str(bytes, 1) {
        Some(p) => p,
        None => {
            return None;
        },
    };
    let (key, off2) = match parse_str(bytes, off1) {
        Some(p) => p,
        None => {
            return None;
        },
    };
    proof {
        assert(spec_parse_str(b.drop_first()) == Some((user@, b.skip(off1 as int))));
    }
    let ghost r2 = b.skip(off2 as int);
    if tag == TAG_STORE || tag == TAG_UPDATE {
        if bytes.len() - off2 == 8 {
            let vslice = slice_subrange(bytes, off2, off2 + 8);
            proof {
                assert(vslice@ =~= r2);
            }
            let value = u64_from_le_bytes(vslice);
            if tag == TAG_STORE {
                Some(LogRecord::Store { user, key, value })
            } else {
                Some(LogRecord::Update { user, key, value })
            }
        } else {
            None
        }
    } else if tag == TAG_DEL {
        if bytes.len() - off2 == 0 {
            Some(LogRecord::Del { user, key })
        } else {
            None
        }
    } else {
        None
    }
}

/// Reads back every decodable record from the log bytes, in order,
/// stopping at the first truncated or corrupt one.
pub fn read_wal(bytes: &[u8]) -> (r: Vec<LogRecord>)
    ensures
        r@.map_values(|rec: LogRecord| rec.model()) == spec_parse_wal(bytes@),
{
    let mut r: Vec<LogRecord> = Vec::new();
    let mut offset: usize = 0;
    proof {
        assert(bytes@.skip(0) =~= bytes@);
        assert(r@.map_values(|rec: LogRecord| rec.model()) =~= Seq::<RecModel>::empty());
    }
    loop
        invariant_except_break
            offset <= bytes@.len(),
            spec_parse_wal(bytes@) == r@.map_values(|rec: LogRecord| rec.model())
                + spec_parse_wal(bytes@.skip(offset as int)),
        ensures
            spec_parse_wal(bytes@) == r@.map_values(|rec: LogRecord| rec.model()),
        decreases bytes@.len() - offset,
    {
        let ghost b = bytes@.skip(offset as int);
        let ghost models = r@.map_values(|rec: LogRecord| rec.model());
        if bytes.len() - offset < 4 {
            proof {
                assert(spec_parse_wal(b) == Seq::<RecModel>::empty());
                assert(models + spec_parse_wal(b) =~= models);
            }
            break;
        }
        let len_slice = slice_subrange(bytes, offset, offset + 4);
        proof {
            assert(len_slice@ =~= b.take(4));
        }
        let n32 = u32_from_le_bytes(len_slice);
        let n = n32 as usize;
        if bytes.len() - (offset + 4) < n {
            proof {
                assert(spec_parse_wal(b) == Seq::<RecModel>::empty());
                assert(models + spec_parse_wal(b) =~= models);
            }
            break;
        }
        let body = slice_subrange(bytes, offset + 4, offset + 4 + n);
        proof {
            assert(body@ =~= b.subrange(4, 4 + n as int));
        }
        match parse_record(body) {
            Some(rec) => {
                r.push(rec);
                proof {
                    assert(bytes@.skip((offset + 4 + n) as int) =~= b.skip(4 + n as int));
                    assert(r@.map_values(|rec: LogRecord| rec.model()) =~= models.push(
                        rec.model(),
                    ));
                    assert(seq![rec.model()] + spec_parse_wal(b.skip(4 + n as int))
                        =~= spec_parse_wal(b));
                    assert(models.push(rec.model()) + spec_parse_wal(b.skip(4 + n as int))
                        =~= models + spec_parse_wal(b));
                }
                offset = offset + 4 + n;
            },
            None => {
                proof {
                    assert(spec_parse_wal(b) == Seq::<RecModel>::empty());
                    assert(models + spec_parse_wal(b) =~= models);
                }
                break;
            },
        }
    }
    r
}

/// Torn-write tolerance: a log holding well-formed framed records followed
/// by any unreadable trailer — too short for a header, a length past the
/// end, or an undecodable body — reads back as exactly those records.
pub proof fn lemma_torn_write_tolerance(recs: Seq<RecModel>, tail: Seq<u8>)
    requires
        forall|i: int| 0 <= i < recs.len() ==> rec_fits(#[trigger] recs[i]),
        spec_parse_wal(tail) == Seq::<RecModel>::empty(),
    ensures
        spec_parse_wal(spec_wal_bytes(recs) + tail) == recs,
    decreases recs.len(),
{
    lemma_auto_spec_u32_to_from_le_bytes();
    if recs.len() == 0 {
        assert(spec_wal_bytes(recs) + tail =~= tail);
    } else {
        let m = recs[0];
        let rb = spec_rec_bytes(m);
        let rest = spec_wal_bytes(recs.drop_first()) + tail;
        let b = spec_wal_bytes(recs) + tail;
        assert(b =~= spec_frame(rb) + rest);
        let n = rb.len() as int;
        assert(b.take(4) =~= spec_u32_to_le_bytes(n as u32));
        assert(spec_u32_from_le_bytes(b.take(4)) == n);
        assert(b.subrange(4, 4 + n) =~= rb);
        lemma_rec_round_trip(m);
        assert(b.skip(4 + n) =~= rest);
        lemma_torn_write_tolerance(recs.drop_first(), tail);
        assert(seq![m] + recs.drop_first() =~= recs);
    }
}

/// Reading back an intact log yields exactly the records appended to it.
pub proof fn lemma_wal_round_trip(recs: Seq<RecModel>)
    requires
        forall|i: int| 0 <= i < recs.len() ==> rec_fits(#[trigger] recs[i]),
    ensures
        spec_parse_wal(spec_wal_bytes(recs)) == recs,
{
    lemma_torn_write_tolerance(recs, Seq::empty());
    assert(spec_wal_bytes(recs) + Seq::<u8>::empty() =~= spec_wal_bytes(recs));
}

} // verus!
