//! Deterministic binary codec for records. All integers are written as
//! 8-byte little-endian words; the description is written as a length
//! prefix followed by its UTF-8 bytes; the optional update timestamp is
//! written as a tag byte followed by the timestamp (zero when absent).
//! Every valid record encodes into at most [`MAX_ENCODED_LEN`] bytes, and
//! decoding an encoding yields the record that was encoded.
use vstd::prelude::*;
use vstd::bytes::{
    lemma_auto_spec_u64_to_from_le_bytes, spec_u64_from_le_bytes, spec_u64_to_le_bytes,
    u64_from_le_bytes, u64_to_le_bytes,
};
use vstd::slice::{slice_subrange, slice_to_vec};
use vstd::string::StrSliceExecFns;
use vstd::utf8::{
    decode_utf8, decode_utf8_encode_utf8, encode_utf8, encode_utf8_decode_utf8,
    encode_utf8_valid_utf8, valid_utf8,
};
use crate::record::{blank, is_blank, record_valid, Expense, ExpenseView, MAX_DESC_BYTES};

verus! {

/// Size bound on the encoding of a valid record.
pub const MAX_ENCODED_LEN: usize = 1024;

/// Number of bytes an encoded record occupies besides its description:
/// four 8-byte words, the 8-byte length prefix and the tag byte.
pub const FIXED_ENCODED_LEN: usize = 49;

/// The tag byte marking whether the update timestamp is present.
pub open spec fn tag_byte(u: Option<u64>) -> u8 {
    match u {
        Option::None => 0u8,
        Option::Some(_) => 1u8,
    }
}

/// The update timestamp word: zero when absent.
pub open spec fn upd_word(u: Option<u64>) -> u64 {
    match u {
        Option::None => 0u64,
        Option::Some(t) => t,
    }
}

/// The encoding of a record.
pub open spec fn encode_spec(v: ExpenseView) -> Seq<u8> {
    spec_u64_to_le_bytes(v.id) + spec_u64_to_le_bytes(encode_utf8(v.description).len() as u64)
        + encode_utf8(v.description) + spec_u64_to_le_bytes(v.amount as u64)
        + spec_u64_to_le_bytes(v.date) + spec_u64_to_le_bytes(v.created_at) + seq![
        tag_byte(v.updated_at),
    ] + spec_u64_to_le_bytes(upd_word(v.updated_at))
}

/// The record a byte string decodes to, or `None` where the bytes are not
/// a structurally well-formed encoding.
pub open spec fn decode_spec(b: Seq<u8>) -> Option<ExpenseView> {
    if b.len() < FIXED_ENCODED_LEN {
        Option::None
    } else {
        let dlen = spec_u64_from_le_bytes(b.subrange(8, 16)) as int;
        if dlen > MAX_DESC_BYTES || b.len() != FIXED_ENCODED_LEN + dlen {
            Option::None
        } else {
            let d = b.subrange(16, 16 + dlen);
            let amt = spec_u64_from_le_bytes(b.subrange(16 + dlen, 24 + dlen));
            let date = spec_u64_from_le_bytes(b.subrange(24 + dlen, 32 + dlen));
            let tag = b[40 + dlen];
            let upd = spec_u64_from_le_bytes(b.subrange(41 + dlen, 49 + dlen));
            if !valid_utf8(d) || blank(decode_utf8(d)) || amt == 0 || amt
                >= 0x8000_0000_0000_0000u64 || date == 0 || tag > 1 || (tag == 0 && upd != 0) {
                Option::None
            } else {
                Option::Some(
                    ExpenseView {
                        id: spec_u64_from_le_bytes(b.subrange(0, 8)),
                        description: decode_utf8(d),
                        amount: amt as i64,
                        date,
                        created_at: spec_u64_from_le_bytes(b.subrange(32 + dlen, 40 + dlen)),
                        updated_at: if tag == 1 {
                            Option::Some(upd)
                        } else {
                            Option::None
                        },
                    },
                )
            }
        }
    }
}

/// The encoding of a valid record stays within the declared bound.
pub proof fn lemma_encode_len(v: ExpenseView)
    requires
        record_valid(v),
    ensures
        encode_spec(v).len() == FIXED_ENCODED_LEN + encode_utf8(v.description).len(),
        encode_spec(v).len() <= MAX_ENCODED_LEN,
{
    lemma_auto_spec_u64_to_from_le_bytes();
}

/// Round-trip law: decoding the encoding of any valid record yields that
/// record again.
pub proof fn lemma_round_trip(v: ExpenseView)
    requires
        record_valid(v),
    ensures
        decode_spec(encode_spec(v)) == Option::Some(v),
{
    lemma_auto_spec_u64_to_from_le_bytes();
    encode_utf8_valid_utf8(v.description);
    encode_utf8_decode_utf8(v.description);
    let e = encode_spec(v);
    let d = encode_utf8(v.description);
    let dlen = d.len() as int;
    assert(e.len() == FIXED_ENCODED_LEN + dlen);
    assert(e.subrange(8, 16) =~= spec_u64_to_le_bytes(d.len() as u64));
    assert(spec_u64_from_le_bytes(e.subrange(8, 16)) as int == dlen);
    assert(e.subrange(0, 8) =~= spec_u64_to_le_bytes(v.id));
    assert(e.subrange(16, 16 + dlen) =~= d);
    assert(e.subrange(16 + dlen, 24 + dlen) =~= spec_u64_to_le_bytes(v.amount as u64));
    assert(e.subrange(24 + dlen, 32 + dlen) =~= spec_u64_to_le_bytes(v.date));
    assert(e.subrange(32 + dlen, 40 + dlen) =~= spec_u64_to_le_bytes(v.created_at));
    assert(e[40 + dlen] == tag_byte(v.updated_at));
    assert(e.subrange(41 + dlen, 49 + dlen) =~= spec_u64_to_le_bytes(upd_word(v.updated_at)));
    assert((v.amount as u64) != 0 && (v.amount as u64) < 0x8000_0000_0000_0000u64);
    assert(((v.amount as u64) as i64) == v.amount);
    assert(!blank(decode_utf8(e.subrange(16, 16 + dlen))));
    assert(tag_byte(v.updated_at) == 0 ==> upd_word(v.updated_at) == 0);
    assert(decode_spec(e) matches Option::Some(w) && w =~= v);
}

/// Canonicity: whatever decodes is a valid record whose encoding is
/// exactly the given bytes. Together with the round-trip law this makes
/// decoding succeed on the canonical encodings of valid records and on
/// nothing else.
pub proof fn lemma_decode_canonical(b: Seq<u8>)
    requires
        decode_spec(b) is Some,
    ensures
        record_valid(decode_spec(b).unwrap()),
        encode_spec(decode_spec(b).unwrap()) == b,
{
    lemma_auto_spec_u64_to_from_le_bytes();
    let v = decode_spec(b).unwrap();
    let dlen = spec_u64_from_le_bytes(b.subrange(8, 16)) as int;
    let d = b.subrange(16, 16 + dlen);
    decode_utf8_encode_utf8(d);
    assert(encode_utf8(v.description) == d);
    assert(d.len() == dlen);
    assert(record_valid(v));
    let e = encode_spec(v);
    assert(e.len() == FIXED_ENCODED_LEN + dlen);
    assert(b.len() == FIXED_ENCODED_LEN + dlen);
    assert(b.subrange(0, 8).len() == 8);
    assert(b.subrange(8, 16).len() == 8);
    assert(b.subrange(16 + dlen, 24 + dlen).len() == 8);
    assert(b.subrange(24 + dlen, 32 + dlen).len() == 8);
    assert(b.subrange(32 + dlen, 40 + dlen).len() == 8);
    assert(b.subrange(41 + dlen, 49 + dlen).len() == 8);
    assert(spec_u64_to_le_bytes(v.id) == b.subrange(0, 8));
    assert((encode_utf8(v.description).len() as u64) == spec_u64_from_le_bytes(b.subrange(8, 16)));
    assert(spec_u64_to_le_bytes(encode_utf8(v.description).len() as u64) == b.subrange(8, 16));
    assert((v.amount as u64) == spec_u64_from_le_bytes(b.subrange(16 + dlen, 24 + dlen)));
    assert(spec_u64_to_le_bytes(v.amount as u64) == b.subrange(16 + dlen, 24 + dlen));
    assert(spec_u64_to_le_bytes(v.date) == b.subrange(24 + dlen, 32 + dlen));
    assert(spec_u64_to_le_bytes(v.created_at) == b.subrange(32 + dlen, 40 + dlen));
    assert(tag_byte(v.updated_at) == b[40 + dlen]);
    assert(upd_word(v.updated_at) == spec_u64_from_le_bytes(b.subrange(41 + dlen, 49 + dlen)));
    assert(spec_u64_to_le_bytes(upd_word(v.updated_at)) == b.subrange(41 + dlen, 49 + dlen));
    assert(e.subrange(0, 8) =~= spec_u64_to_le_bytes(v.id));
    assert(e.subrange(8, 16) =~= spec_u64_to_le_bytes(encode_utf8(v.description).len() as u64));
    assert(e.subrange(16, 16 + dlen) =~= d);
    assert(e.subrange(16 + dlen, 24 + dlen) =~= spec_u64_to_le_bytes(v.amount as u64));
    assert(e.subrange(24 + dlen, 32 + dlen) =~= spec_u64_to_le_bytes(v.date));
    assert(e.subrange(32 + dlen, 40 + dlen) =~= spec_u64_to_le_bytes(v.created_at));
    assert(e[40 + dlen] == tag_byte(v.updated_at));
    assert(e.subrange(41 + dlen, 49 + dlen) =~= spec_u64_to_le_bytes(upd_word(v.updated_at)));
    assert forall|idx: int| 0 <= idx < e.len() implies e[idx] == b[idx] by {
        if idx < 8 {
            assert(e.subrange(0, 8)[idx] == b.subrange(0, 8)[idx]);
        } else if idx < 16 {
            assert(e.subrange(8, 16)[idx - 8] == b.subrange(8, 16)[idx - 8]);
        } else if idx < 16 + dlen {
            assert(e.subrange(16, 16 + dlen)[idx - 16] == b.subrange(16, 16 + dlen)[idx - 16]);
        } else if idx < 24 + dlen {
            assert(e.subrange(16 + dlen, 24 + dlen)[idx - 16 - dlen] == b.subrange(
                16 + dlen,
                24 + dlen,
            )[idx - 16 - dlen]);
        } else if idx < 32 + dlen {
            assert(e.subrange(24 + dlen, 32 + dlen)[idx - 24 - dlen] == b.subrange(
                24 + dlen,
                32 + dlen,
            )[idx - 24 - dlen]);
        } else if idx < 40 + dlen {
            assert(e.subrange(32 + dlen, 40 + dlen)[idx - 32 - dlen] == b.subrange(
                32 + dlen,
                40 + dlen,
            )[idx - 32 - dlen]);
        } else if idx == 40 + dlen {
            assert(e[idx] == b[idx]);
        } else {
            assert(e.subrange(41 + dlen, 49 + dlen)[idx - 41 - dlen] == b.subrange(
                41 + dlen,
                49 + dlen,
            )[idx - 41 - dlen]);
        }
    }
    assert(e =~= b);
}

/// Relies on `String::from_utf8` from alloc: it returns exactly the string
/// whose UTF-8 encoding is the given bytes, and fails exactly on byte
/// strings that are not valid UTF-8.
#[verifier::external_body]
pub(crate) fn string_from_utf8(v: Vec<u8>) -> (r: Option<String>)
    ensures
        r matches Option::Some(s) ==> encode_utf8(s@) == v@,
        valid_utf8(v@) ==> r is Some,
{
    String::from_utf8(v).ok()
}

/// Encodes a valid record into its byte representation.
pub fn encode(r: &Expense) -> (out: Vec<u8>)
    requires
        record_valid(r@),
    ensures
        out@ == encode_spec(r@),
        out@.len() <= MAX_ENCODED_LEN,
{
    proof {
        lemma_encode_len(r@);
    }
    let mut out = u64_to_le_bytes(r.id);
    let db: &[u8] = r.description.as_str().as_bytes();
    let mut part = u64_to_le_bytes(db.len() as u64);
    out.append(&mut part);
    let mut dv = slice_to_vec(db);
    out.append(&mut dv);
    let mut part = u64_to_le_bytes(r.amount as u64);
    out.append(&mut part);
    let mut part = u64_to_le_bytes(r.date);
    out.append(&mut part);
    let mut part = u64_to_le_bytes(r.created_at);
    out.append(&mut part);
    match r.updated_at {
        Option::None => {
            out.push(0u8);
            let mut part = u64_to_le_bytes(0u64);
            out.append(&mut part);
        },
        Option::Some(t) => {
            out.push(1u8);
            let mut part = u64_to_le_bytes(t);
            out.append(&mut part);
        },
    }
    assert(out@ =~= encode_spec(r@));
    out
}

/// Reads the 8-byte little-endian word at `off`.
fn read_u64(b: &[u8], off: usize) -> (v: u64)
    requires
        off + 8 <= b@.len(),
    ensures
        v == spec_u64_from_le_bytes(b@.subrange(off as int, off as int + 8)),
{
    let n = b.len();
    assert(off + 8 <= n);
    u64_from_le_bytes(slice_subrange(b, off, off + 8))
}

/// Decodes a byte representation back into a record; returns `None`
/// exactly where the bytes are not the canonical encoding of a valid
/// record (see [`lemma_decode_canonical`]).
pub fn decode(b: &[u8]) -> (r: Option<Expense>)
    ensures
        match r {
            Option::Some(e) => decode_spec(b@) == Option::Some(e@),
            Option::None => decode_spec(b@) is None,
        },
{
    let n = b.len();
    if n < FIXED_ENCODED_LEN {
        return None;
    }
    let dlen_w = read_u64(b, 8);
    if dlen_w > MAX_DESC_BYTES as u64 || (n - FIXED_ENCODED_LEN) as u64 != dlen_w {
        return None;
    }
    let dlen = dlen_w as usize;
    let dv = slice_to_vec(slice_subrange(b, 16, 16 + dlen));
    assert(dv@ == b@.subrange(16, 16 + dlen as int));
    let amt = read_u64(b, 16 + dlen);
    let date = read_u64(b, 24 + dlen);
    let tag = *vstd::slice::slice_index_get(b, 40 + dlen);
    let upd_w = read_u64(b, 41 + dlen);
    let s = string_from_utf8(dv);
    if s.is_none() || amt == 0 || amt >= 0x8000_0000_0000_0000u64 || date == 0 || tag > 1 || (tag
        == 0 && upd_w != 0) {
        proof {
            if s is None {
                assert(!valid_utf8(b@.subrange(16, 16 + dlen as int)));
            }
        }
        return None;
    }
    let desc = s.unwrap();
    proof {
        encode_utf8_decode_utf8(desc@);
    }
    if is_blank(desc.as_str()) {
        proof {
            assert(blank(decode_utf8(b@.subrange(16, 16 + dlen as int))));
        }
        return None;
    }
    let e = Expense {
        id: read_u64(b, 0),
        description: desc,
        amount: amt as i64,
        date,
        created_at: read_u64(b, 32 + dlen),
        updated_at: if tag == 1 {
            Option::Some(upd_w)
        } else {
            Option::None
        },
    };
    proof {
        let d_s = b@.subrange(16, 16 + dlen as int);
        encode_utf8_valid_utf8(e.description@);
        assert(valid_utf8(d_s));
        assert(decode_utf8(d_s) == e.description@);
        assert(decode_spec(b@) matches Option::Some(w) && w =~= e@);
    }
    Some(e)
}

} // verus!
