//! Byte-level building blocks shared by the write-ahead log and the
//! snapshot: strings as a 4-byte little-endian byte-length header followed
//! by the UTF-8 bytes, and fixed-width little-endian integers.

use vstd::prelude::*;

use vstd::bytes::{spec_u32_from_le_bytes, spec_u32_to_le_bytes, u32_from_le_bytes, u32_to_le_bytes};
use vstd::bytes::lemma_auto_spec_u32_to_from_le_bytes;
use vstd::slice::slice_subrange;
use vstd::utf8::{decode_utf8, encode_utf8, valid_utf8};
use vstd::utf8::{encode_utf8_decode_utf8, encode_utf8_valid_utf8};
use vstd::string::StringSliceAdditionalSpecFns;

verus! {

/// Whether a string's UTF-8 form fits under the 4-byte length header.
pub open spec fn str_fits(s: Seq<char>) -> bool {
    encode_utf8(s).len() <= u32::MAX
}

/// The encoded form of a string: little-endian byte length, then the
/// UTF-8 bytes.
pub open spec fn spec_encode_str(s: Seq<char>) -> Seq<u8> {
    spec_u32_to_le_bytes(encode_utf8(s).len() as u32) + encode_utf8(s)
}

/// Reads one encoded string from the front of `b`: the decoded characters
/// and the remaining bytes. Fails on a truncated header, a length past the
/// end, or bytes that are not UTF-8.
pub open spec fn spec_parse_str(b: Seq<u8>) -> Option<(Seq<char>, Seq<u8>)> {
    if b.len() < 4 {
        None
    } else {
        let n = spec_u32_from_le_bytes(b.take(4)) as int;
        if 4 + n > b.len() {
            None
        } else {
            let sb = b.subrange(4, 4 + n);
            if valid_utf8(sb) {
                Some((decode_utf8(sb), b.skip(4 + n)))
            } else {
                None
            }
        }
    }
}

/// Parsing undoes encoding, whatever bytes follow.
pub proof fn lemma_parse_encode_str(s: Seq<char>, rest: Seq<u8>)
    requires
        str_fits(s),
    ensures
        spec_parse_str(spec_encode_str(s) + rest) == Some((s, rest)),
{
    lemma_auto_spec_u32_to_from_le_bytes();
    encode_utf8_valid_utf8(s);
    encode_utf8_decode_utf8(s);
    let eb = encode_utf8(s);
    let n = eb.len() as int;
    let b = spec_encode_str(s) + rest;
    assert(b.take(4) =~= spec_u32_to_le_bytes(n as u32));
    assert(spec_u32_from_le_bytes(b.take(4)) == n);
    assert(b.subrange(4, 4 + n) =~= eb);
    assert(b.skip(4 + n) =~= rest);
}

/// Relies on str::from_utf8: it returns the string viewing the given
/// bytes exactly when they are valid UTF-8.
#[verifier::external_body]
fn utf8_decode(v: &[u8]) -> (r: Option<&str>)
    ensures
        match r {
            Some(s) => valid_utf8(v@) && s@ == decode_utf8(v@),
            None => !valid_utf8(v@),
        },
{
    core::str::from_utf8(v).ok()
}

/// Appends the encoded form of `s` to `out`.
pub(crate) fn encode_str(out: &mut Vec<u8>, s: &str)
    requires
        str_fits(s@),
    ensures
        final(out)@ == old(out)@ + spec_encode_str(s@),
{
    let b = s.as_bytes();
    proof {
        assert(b@ == encode_utf8(s@));
    }
    let n32 = b.len() as u32;
    let len_bytes = u32_to_le_bytes(n32);
    out.extend_from_slice(len_bytes.as_slice());
    out.extend_from_slice(b);
    proof {
        assert(final(out)@ =~= old(out)@ + spec_encode_str(s@));
    }
}

/// Reads one encoded string out of `bytes` starting at `offset`; returns
/// the string and the offset just past it.
pub(crate) fn parse_str(bytes: &[u8], offset: usize) -> (r: Option<(String, usize)>)
    requires
        offset <= bytes@.len(),
    ensures
        match r {
            Some(p) => {
                &&& offset < p.1 <= bytes@.len()
                &&& spec_parse_str(bytes@.skip(offset as int)) == Some(
                    (p.0@, bytes@.skip(p.1 as int)),
                )
            },
            None => spec_parse_str(bytes@.skip(offset as int)) is None,
        },
{
    let ghost b = bytes@.skip(offset as int);
    if bytes.len() - offset < 4 {
        return None;
    }
    let len_slice = slice_subrange(bytes, offset, offset + 4);
    proof {
        assert(len_slice@ =~= b.take(4));
    }
    let n32 = u32_from_le_bytes(len_slice);
    let n = n32 as usize;
    if bytes.len() - (offset + 4) < n {
        return None;
    }
    let sb = slice_subrange(bytes, offset + 4, offset + 4 + n);
    proof {
        assert(sb@ =~= b.subrange(4, 4 + n as int));
    }
    match utf8_decode(sb) {
        Some(s) => {
            let owned = s.to_owned();
            proof {
                assert(bytes@.skip((offset + 4 + n) as int) =~= b.skip(4 + n as int));
            }
            Some((owned, offset + 4 + n))
        },
        None => None,
    }
}

} // verus!
