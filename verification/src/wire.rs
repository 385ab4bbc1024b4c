//! The tagged binary form of the checkout payload: protobuf-style wire
//! encoding, written and proved here as the library's own format.
//!
//! A record is a concatenation of optional fields in tag order. Integers
//! travel as base-128 varints (least-significant group first, high bit as
//! continuation), strings and sub-messages as a tag byte, a varint length,
//! and the raw bytes. Fields holding their default value (zero, the empty
//! string) are omitted. The decoder accepts exactly the canonical encoding
//! of a record and reconstructs it field for field.

use vstd::prelude::*;
use vstd::slice::{slice_subrange, slice_to_vec};
use vstd::utf8::{decode_utf8, encode_utf8, encode_utf8_decode_utf8, encode_utf8_valid_utf8,
    valid_utf8};
use crate::bindings::bytes_to_string;
use crate::{CheckoutPayloadModel, PayloadView};

verus! {

/// `128^k`, the weight of the `k`-th varint byte.
pub open spec fn pow128(k: nat) -> nat
    decreases k,
{
    if k == 0 {
        1
    } else {
        128 * pow128((k - 1) as nat)
    }
}

/// The varint encoding of `n`: seven bits per byte, least significant
/// first, continuation bit on every byte but the last. Minimal by
/// construction.
pub open spec fn spec_varint(n: nat) -> Seq<u8>
    decreases n,
{
    if n < 128 {
        seq![n as u8]
    } else {
        seq![(128 + n % 128) as u8] + spec_varint(n / 128)
    }
}

/// Parses a varint of at most `k` bytes from the front of `b`, returning
/// the value and the number of bytes consumed.
pub open spec fn spec_parse_varint_k(b: Seq<u8>, k: nat) -> Option<(nat, nat)>
    decreases k,
{
    if b.len() == 0 || k == 0 {
        None
    } else if b[0] < 128 {
        Some((b[0] as nat, 1))
    } else {
        match spec_parse_varint_k(b.drop_first(), (k - 1) as nat) {
            None => None,
            Some((v, c)) => Some(((b[0] - 128) as nat + 128 * v, c + 1)),
        }
    }
}

/// Parses a varint of at most ten bytes, the longest a 64-bit value needs.
pub open spec fn spec_parse_varint(b: Seq<u8>) -> Option<(nat, nat)> {
    spec_parse_varint_k(b, 10)
}

/// A varint is one to `k` bytes long for values below `128^k`.
pub proof fn lemma_varint_len(n: nat, k: nat)
    requires
        n < pow128(k),
        k >= 1,
    ensures
        1 <= spec_varint(n).len() <= k,
    decreases k,
{
    if n >= 128 {
        assert(pow128(k) == 128 * pow128((k - 1) as nat));
        assert(n / 128 < pow128((k - 1) as nat)) by (nonlinear_arith)
            requires
                n < 128 * pow128((k - 1) as nat),
        ;
        assert(k >= 2) by {
            if k == 1 {
                assert(pow128(1nat) == 128);
            }
        };
        lemma_varint_len(n / 128, (k - 1) as nat);
    }
}

/// Parsing inverts encoding: the varint of `n` followed by anything parses
/// to `n`, consuming exactly the varint's bytes.
pub proof fn lemma_parse_varint_encode_k(n: nat, rest: Seq<u8>, k: nat)
    requires
        n < pow128(k),
        k >= 1,
        k <= 10,
    ensures
        spec_parse_varint_k(spec_varint(n) + rest, k) == Some((n, spec_varint(n).len())),
    decreases k,
{
    let b = spec_varint(n) + rest;
    if n < 128 {
        assert(b[0] == n as u8);
    } else {
        assert(pow128(k) == 128 * pow128((k - 1) as nat));
        assert(n / 128 < pow128((k - 1) as nat)) by (nonlinear_arith)
            requires
                n < 128 * pow128((k - 1) as nat),
        ;
        assert(k >= 2) by {
            if k == 1 {
                assert(pow128(1nat) == 128);
            }
        };
        lemma_parse_varint_encode_k(n / 128, rest, (k - 1) as nat);
        assert(b.drop_first() =~= spec_varint(n / 128) + rest);
        assert(b[0] == (128 + n % 128) as u8);
        assert((b[0] - 128) as nat + 128 * (n / 128) == n);
    }
}

/// The ten-byte parser recovers any value below `2^64` from its encoding.
pub proof fn lemma_parse_varint_encode(n: nat, rest: Seq<u8>)
    requires
        n < 0x10000000000000000,
    ensures
        spec_parse_varint(spec_varint(n) + rest) == Some((n, spec_varint(n).len())),
        1 <= spec_varint(n).len() <= 10,
{
    lemma_pow128_value();
    lemma_varint_len(n, 10);
    lemma_parse_varint_encode_k(n, rest, 10);
}

/// A successful parse consumes one to `k` bytes, no more than are there.
pub proof fn lemma_parse_varint_k_consumed(b: Seq<u8>, k: nat)
    requires
        spec_parse_varint_k(b, k) is Some,
    ensures
        1 <= spec_parse_varint_k(b, k).unwrap().1 <= k,
        spec_parse_varint_k(b, k).unwrap().1 <= b.len(),
    decreases k,
{
    if b.len() != 0 && k != 0 && b[0] >= 128 {
        lemma_parse_varint_k_consumed(b.drop_first(), (k - 1) as nat);
    }
}

/// Appends the varint encoding of `n` to `out`.
pub fn encode_varint(n0: u64, out: &mut Vec<u8>)
    ensures
        final(out)@ == old(out)@ + spec_varint(n0 as nat),
{
    let mut n = n0;
    while n >= 128
        invariant
            out@ + spec_varint(n as nat) == old(out)@ + spec_varint(n0 as nat),
        decreases n,
    {
        let ghost pre = out@;
        out.push((n % 128 + 128) as u8);
        proof {
            assert(spec_varint(n as nat) == seq![(128 + n as nat % 128) as u8] + spec_varint(
                n as nat / 128,
            ));
            assert(n as nat / 128 == (n / 128) as nat);
            assert(out@ + spec_varint((n / 128) as nat) =~= pre + spec_varint(n as nat));
        }
        n = n / 128;
    }
    let ghost pre = out@;
    out.push(n as u8);
    proof {
        assert(spec_varint(n as nat) == seq![n as u8]);
        assert(out@ =~= pre + spec_varint(n as nat));
    }
}

/// Reads a varint at `pos`; fails where the spec parser fails or the value
/// does not fit in 64 bits. On success returns the value and the position
/// just past it.
pub fn read_varint(b: &[u8], pos: usize) -> (r: Option<(u64, usize)>)
    requires
        pos <= b@.len(),
    ensures
        match spec_parse_varint(b@.skip(pos as int)) {
            Some((v, c)) => {
                if v < 0x10000000000000000 {
                    r == Some((v as u64, (pos + c) as usize))
                } else {
                    r is None
                }
            },
            None => r is None,
        },
        r is Some ==> pos < r.unwrap().1 <= b@.len(),
{
    let ghost full = spec_parse_varint(b@.skip(pos as int));
    let mut j: usize = 0;
    let mut p = pos;
    let mut acc: u128 = 0;
    let mut mult: u128 = 1;
    while j < 10
        invariant
            pos <= b@.len(),
            p == pos + j,
            p <= b@.len(),
            j <= 10,
            full == spec_parse_varint(b@.skip(pos as int)),
            mult == pow128(j as nat),
            mult <= 0x8000000000000000,
            acc < mult,
            ({
                let tail = spec_parse_varint_k(b@.skip(p as int), (10 - j) as nat);
                match tail {
                    None => full is None,
                    Some((v, c)) => full == Some::<(nat, nat)>(
                        ((acc as nat + mult as nat * v) as nat, (j + c) as nat),
                    ),
                }
            }),
        decreases 10 - j,
    {
        if p >= b.len() {
            return None;
        }
        let byte = b[p];
        if byte < 128 {
            proof {
                assert(b@.skip(p as int).len() > 0);
                assert(b@.skip(p as int)[0] == byte);
                assert(spec_parse_varint_k(b@.skip(p as int), (10 - j) as nat) == Some::<(nat, nat)>((byte as nat, 1)));
                assert(acc + mult * (byte as u128) < 0x2000000000000000000) by (nonlinear_arith)
                    requires
                        acc < mult,
                        mult <= 0x8000000000000000u128,
                        byte < 128,
                ;
            }
            let val: u128 = acc + mult * (byte as u128);
            if val >= 0x10000000000000000u128 {
                return None;
            }
            return Some((val as u64, p + 1));
        }
        proof {
            assert(b@.skip(p as int).len() > 0);
            assert(b@.skip(p as int)[0] == byte);
            assert(b@.skip(p as int).drop_first() =~= b@.skip(p as int + 1));
            let tail2 = spec_parse_varint_k(b@.skip(p as int + 1), (10 - j - 1) as nat);
            if j < 9 {
                match tail2 {
                    None => {},
                    Some((v2, c2)) => {
                        assert(spec_parse_varint_k(b@.skip(p as int), (10 - j) as nat)
                            == Some::<(nat, nat)>(((byte - 128) as nat + 128 * v2, c2 + 1)));
                        assert(
                            acc as nat + mult as nat * ((byte - 128) as nat + 128 * v2)
                            == (acc as nat + mult as nat * (byte - 128) as nat)
                                + (mult as nat * 128) * v2
                        ) by (nonlinear_arith);
                    },
                }
            }
            assert(acc + mult * ((byte - 128) as u128) < mult * 128) by (nonlinear_arith)
                requires
                    acc < mult,
                    byte >= 128,
                    byte < 256,
            ;
            assert(mult * 128 <= 0x2000000000000000000) by (nonlinear_arith)
                requires
                    mult <= 0x8000000000000000u128,
            ;
        }
        if j == 9 {
            // ten continuation bytes: the spec parser runs out of fuel
            proof {
                assert(spec_parse_varint_k(b@.skip(p as int + 1), 0nat) is None);
                assert(spec_parse_varint_k(b@.skip(p as int), 1nat) is None);
            }
            return None;
        }
        proof {
            assert(mult * 128 == pow128((j + 1) as nat));
            assert(pow128((j + 1) as nat) <= pow128(9nat)) by {
                lemma_pow128_increases((j + 1) as nat, 9nat);
            };
            lemma_pow128_value();
        }
        acc = acc + mult * ((byte - 128) as u128);
        mult = mult * 128;
        p = p + 1;
        j = j + 1;
    }
    None
}

/// Ten varint bytes cover `2^70` values, more than every 64-bit integer.
pub proof fn lemma_pow128_value()
    ensures
        pow128(9nat) == 0x8000000000000000,
        pow128(10nat) == 0x400000000000000000,
{
    assert(pow128(0nat) == 1);
    assert(pow128(1nat) == 128);
    assert(pow128(2nat) == 0x4000);
    assert(pow128(3nat) == 0x200000);
    assert(pow128(4nat) == 0x10000000);
    assert(pow128(5nat) == 0x800000000);
    assert(pow128(6nat) == 0x40000000000);
    assert(pow128(7nat) == 0x2000000000000);
    assert(pow128(8nat) == 0x100000000000000);
    assert(pow128(9nat) == 0x8000000000000000);
    assert(pow128(10nat) == 0x400000000000000000);
}

/// `pow128` grows with its exponent.
pub proof fn lemma_pow128_increases(a: nat, c: nat)
    requires
        a <= c,
    ensures
        pow128(a) <= pow128(c),
    decreases c,
{
    if a < c {
        lemma_pow128_increases(a, (c - 1) as nat);
        assert(pow128(c) == 128 * pow128((c - 1) as nat));
        assert(pow128((c - 1) as nat) <= 128 * pow128((c - 1) as nat)) by (nonlinear_arith)
            requires
                pow128((c - 1) as nat) >= 0,
        ;
    }
}

/// A timestamp on the wire: the 64-bit two's-complement image of the
/// signed value.
pub open spec fn spec_u64_wire(t: i64) -> u64 {
    if t >= 0 {
        t as u64
    } else {
        (t + 0x10000000000000000) as u64
    }
}

/// The signed value a 64-bit wire image stands for.
pub open spec fn spec_wire_to_i64(v: u64) -> i64 {
    if v < 0x8000000000000000 {
        v as i64
    } else {
        (v - 0x10000000000000000) as i64
    }
}

/// The two's-complement image is faithful.
pub proof fn lemma_u64_wire_roundtrip(t: i64)
    ensures
        spec_wire_to_i64(spec_u64_wire(t)) == t,
{
}

pub fn u64_wire(t: i64) -> (r: u64)
    ensures
        r == spec_u64_wire(t),
{
    if t >= 0 {
        t as u64
    } else {
        let w: i128 = (t as i128) + 0x10000000000000000i128;
        w as u64
    }
}

pub fn wire_to_i64(v: u64) -> (r: i64)
    ensures
        r == spec_wire_to_i64(v),
{
    if v < 0x8000000000000000u64 {
        v as i64
    } else {
        let w: i128 = (v as i128) - 0x10000000000000000i128;
        w as i64
    }
}

/// A length-delimited field: tag byte, varint length, raw bytes.
pub open spec fn spec_len_field(tag: u8, body: Seq<u8>) -> Seq<u8> {
    seq![tag] + spec_varint(body.len()) + body
}

/// The timestamp field, omitted when the value is zero.
pub open spec fn spec_ts_section(t: i64) -> Seq<u8> {
    if t == 0 {
        Seq::<u8>::empty()
    } else {
        seq![0x08u8] + spec_varint(spec_u64_wire(t) as nat)
    }
}

/// A string field, omitted when the string is empty.
pub open spec fn spec_str_section(tag: u8, s: Seq<char>) -> Seq<u8> {
    if s.len() == 0 {
        Seq::<u8>::empty()
    } else {
        spec_len_field(tag, encode_utf8(s))
    }
}

/// The body of one metadata entry: key and value as string fields.
pub open spec fn spec_entry_body(k: Seq<char>, v: Seq<char>) -> Seq<u8> {
    spec_str_section(0x0A, k) + spec_str_section(0x12, v)
}

/// The metadata section: each entry as a length-delimited sub-message,
/// in order.
pub open spec fn spec_metadata_wire(md: Seq<(Seq<char>, Seq<char>)>) -> Seq<u8>
    decreases md.len(),
{
    if md.len() == 0 {
        Seq::<u8>::empty()
    } else {
        spec_len_field(0x22, spec_entry_body(md[0].0, md[0].1)) + spec_metadata_wire(
            md.drop_first(),
        )
    }
}

/// The full wire form of a record: the four sections in tag order.
pub open spec fn spec_wire(v: PayloadView) -> Seq<u8> {
    spec_ts_section(v.timestamp) + spec_str_section(0x12, v.client_id) + spec_str_section(
        0x1A,
        v.sign,
    ) + spec_metadata_wire(v.metadata)
}

/// Every variable-length part of the record fits a 64-bit length: what any
/// record held in memory satisfies, and what the decoder can recover.
pub open spec fn wire_sizes_ok(v: PayloadView) -> bool {
    &&& encode_utf8(v.client_id).len() < 0x10000000000000000
    &&& encode_utf8(v.sign).len() < 0x10000000000000000
    &&& forall|i: int|
        0 <= i < v.metadata.len() ==> (#[trigger] spec_entry_body(
            v.metadata[i].0,
            v.metadata[i].1,
        )).len() < 0x10000000000000000
}

/// Appends `tag`, the length of `body` as a varint, and `body` itself.
pub fn encode_bytes_field(tag: u8, body: &[u8], out: &mut Vec<u8>)
    ensures
        final(out)@ == old(out)@ + spec_len_field(tag, body@),
        body@.len() < 0x10000000000000000,
{
    let ghost pre = out@;
    out.push(tag);
    encode_varint(body.len() as u64, out);
    let mut tmp = vstd::slice::slice_to_vec(body);
    out.append(&mut tmp);
    proof {
        assert(final(out)@ =~= pre + spec_len_field(tag, body@));
    }
}

/// Appends a string field: tag, byte length, UTF-8 bytes.
pub fn encode_str_field(tag: u8, s: &str, out: &mut Vec<u8>)
    ensures
        final(out)@ == old(out)@ + spec_len_field(tag, encode_utf8(s@)),
        encode_utf8(s@).len() < 0x10000000000000000,
{
    encode_bytes_field(tag, s.as_bytes(), out);
}

/// Serializes a record to its canonical wire form.
pub fn encode_record(m: &CheckoutPayloadModel) -> (r: Vec<u8>)
    ensures
        r@ == spec_wire(m@),
        wire_sizes_ok(m@),
{
    let mut out: Vec<u8> = Vec::new();
    if m.timestamp != 0 {
        out.push(0x08u8);
        encode_varint(u64_wire(m.timestamp), &mut out);
    }
    proof {
        assert(out@ =~= spec_ts_section(m@.timestamp));
    }
    let ghost s1 = out@;
    if !m.client_id.as_str().is_empty() {
        encode_str_field(0x12, m.client_id.as_str(), &mut out);
    }
    proof {
        assert(out@ =~= s1 + spec_str_section(0x12, m@.client_id));
        if m@.client_id.len() == 0 {
            assert(encode_utf8(m@.client_id) =~= Seq::<u8>::empty());
        }
    }
    let ghost s2 = out@;
    if !m.sign.as_str().is_empty() {
        encode_str_field(0x1A, m.sign.as_str(), &mut out);
    }
    proof {
        assert(out@ =~= s2 + spec_str_section(0x1A, m@.sign));
        if m@.sign.len() == 0 {
            assert(encode_utf8(m@.sign) =~= Seq::<u8>::empty());
        }
    }
    let ghost s3 = out@;
    let ghost md = m@.metadata;
    proof {
        assert(md.skip(0) =~= md);
    }
    let mut i: usize = 0;
    while i < m.metadata.len()
        invariant
            md == m@.metadata,
            m.metadata@.len() == md.len(),
            i <= md.len(),
            out@ + spec_metadata_wire(md.skip(i as int)) == s3 + spec_metadata_wire(md),
            forall|k: int|
                0 <= k < i ==> (#[trigger] spec_entry_body(md[k].0, md[k].1)).len()
                    < 0x10000000000000000,
            encode_utf8(m@.client_id).len() < 0x10000000000000000,
            encode_utf8(m@.sign).len() < 0x10000000000000000,
        decreases md.len() - i,
    {
        let kv = &m.metadata[i];
        let mut entry: Vec<u8> = Vec::new();
        if !kv.0.as_str().is_empty() {
            encode_str_field(0x0A, kv.0.as_str(), &mut entry);
        }
        if !kv.1.as_str().is_empty() {
            encode_str_field(0x12, kv.1.as_str(), &mut entry);
        }
        proof {
            if kv.0@.len() == 0 {
                assert(encode_utf8(md[i as int].0) =~= Seq::<u8>::empty());
            }
            if kv.1@.len() == 0 {
                assert(encode_utf8(md[i as int].1) =~= Seq::<u8>::empty());
            }
            assert(entry@ =~= spec_entry_body(md[i as int].0, md[i as int].1));
        }
        let entry_len = entry.len();
        let ghost pre = out@;
        encode_bytes_field(0x22, entry.as_slice(), &mut out);
        proof {
            assert(md.skip(i as int).len() > 0);
            assert(md.skip(i as int)[0] == md[i as int]);
            assert(md.skip(i as int).drop_first() =~= md.skip(i as int + 1));
            assert(spec_metadata_wire(md.skip(i as int)) == spec_len_field(
                0x22,
                spec_entry_body(md[i as int].0, md[i as int].1),
            ) + spec_metadata_wire(md.skip(i as int + 1)));
            assert(out@ + spec_metadata_wire(md.skip(i as int + 1)) =~= pre + spec_metadata_wire(
                md.skip(i as int),
            ));
        }
        i = i + 1;
    }
    proof {
        assert(md.skip(md.len() as int) =~= Seq::<(Seq<char>, Seq<char>)>::empty());
        assert(out@ =~= spec_wire(m@));
    }
    out
}

/// Parses the optional timestamp field from the front of `b`: absent when
/// the first byte is not its tag.
pub open spec fn spec_parse_ts(b: Seq<u8>) -> Option<(i64, Seq<u8>)> {
    if b.len() == 0 || b[0] != 0x08 {
        Some((0i64, b))
    } else {
        match spec_parse_varint(b.drop_first()) {
            None => None,
            Some((v, c)) => {
                if v < 0x10000000000000000 {
                    Some((spec_wire_to_i64(v as u64), b.skip(1 + c as int)))
                } else {
                    None
                }
            },
        }
    }
}

/// Parses an optional string field with the given tag: the empty string
/// when the first byte is not the tag, else a varint length and that many
/// bytes of UTF-8.
pub open spec fn spec_parse_str(tag: u8, b: Seq<u8>) -> Option<(Seq<char>, Seq<u8>)> {
    if b.len() == 0 || b[0] != tag {
        Some((Seq::<char>::empty(), b))
    } else {
        match spec_parse_varint(b.drop_first()) {
            None => None,
            Some((len, c)) => {
                if len <= b.len() - 1 - c {
                    let bytes = b.subrange(1 + c as int, 1 + c + len as int);
                    if valid_utf8(bytes) {
                        Some((decode_utf8(bytes), b.skip(1 + c + len as int)))
                    } else {
                        None
                    }
                } else {
                    None
                }
            },
        }
    }
}

/// Parses one metadata entry: an optional key field, an optional value
/// field, and nothing else.
pub open spec fn spec_parse_entry(b: Seq<u8>) -> Option<(Seq<char>, Seq<char>)> {
    match spec_parse_str(0x0A, b) {
        None => None,
        Some((k, b1)) => match spec_parse_str(0x12, b1) {
            None => None,
            Some((v, b2)) => if b2.len() == 0 {
                Some((k, v))
            } else {
                None
            },
        },
    }
}

/// Parses the metadata section: a run of length-delimited entries filling
/// the rest of the buffer.
pub open spec fn spec_parse_entries(b: Seq<u8>) -> Option<Seq<(Seq<char>, Seq<char>)>>
    decreases b.len(),
{
    if b.len() == 0 {
        Some(Seq::<(Seq<char>, Seq<char>)>::empty())
    } else if b[0] != 0x22 {
        None
    } else {
        match spec_parse_varint(b.drop_first()) {
            None => None,
            Some((len, c)) => {
                if len <= b.len() - 1 - c {
                    let body = b.subrange(1 + c as int, 1 + c + len as int);
                    let rest = b.skip(1 + c + len as int);
                    match spec_parse_entry(body) {
                        None => None,
                        Some(kv) => match spec_parse_entries(rest) {
                            None => None,
                            Some(tail) => Some(seq![kv] + tail),
                        },
                    }
                } else {
                    None
                }
            },
        }
    }
}

/// Parses a whole record: the four sections in tag order, nothing left over.
pub open spec fn spec_parse_record(b: Seq<u8>) -> Option<PayloadView> {
    match spec_parse_ts(b) {
        None => None,
        Some((ts, b1)) => match spec_parse_str(0x12, b1) {
            None => None,
            Some((cid, b2)) => match spec_parse_str(0x1A, b2) {
                None => None,
                Some((sg, b3)) => match spec_parse_entries(b3) {
                    None => None,
                    Some(md) => Some(
                        PayloadView { timestamp: ts, client_id: cid, sign: sg, metadata: md },
                    ),
                },
            },
        },
    }
}

/// The timestamp parser recovers the encoded timestamp and leaves the rest.
pub proof fn lemma_parse_ts_wire(t: i64, rest: Seq<u8>)
    requires
        rest.len() == 0 || rest[0] != 0x08,
    ensures
        spec_parse_ts(spec_ts_section(t) + rest) == Some((t, rest)),
{
    let b = spec_ts_section(t) + rest;
    if t == 0 {
        assert(b =~= rest);
    } else {
        let w = spec_u64_wire(t);
        assert(b[0] == 0x08);
        lemma_parse_varint_encode(w as nat, rest);
        assert(b.drop_first() =~= spec_varint(w as nat) + rest);
        let c = spec_varint(w as nat).len();
        lemma_u64_wire_roundtrip(t);
        assert(b.skip(1 + c as int) =~= rest);
    }
}

/// The string-field parser recovers the encoded string and leaves the rest.
pub proof fn lemma_parse_str_wire(tag: u8, s: Seq<char>, rest: Seq<u8>)
    requires
        encode_utf8(s).len() < 0x10000000000000000,
        s.len() == 0 ==> rest.len() == 0 || rest[0] != tag,
    ensures
        spec_parse_str(tag, spec_str_section(tag, s) + rest) == Some((s, rest)),
{
    let b = spec_str_section(tag, s) + rest;
    if s.len() == 0 {
        assert(b =~= rest);
        assert(decode_utf8(Seq::<u8>::empty()) =~= Seq::<char>::empty());
        if b.len() == 0 || b[0] != tag {
            assert(spec_parse_str(tag, b) == Some((Seq::<char>::empty(), b)));
        }
        assert(Seq::<char>::empty() =~= s);
    } else {
        let bytes = encode_utf8(s);
        assert(b[0] == tag);
        lemma_parse_varint_encode(bytes.len(), bytes + rest);
        assert(b.drop_first() =~= spec_varint(bytes.len()) + (bytes + rest));
        let c = spec_varint(bytes.len()).len();
        assert(b.len() - 1 - c == bytes.len() + rest.len());
        assert(b.subrange(1 + c as int, 1 + c + bytes.len() as int) =~= bytes);
        encode_utf8_valid_utf8(s);
        encode_utf8_decode_utf8(s);
        assert(b.skip(1 + c + bytes.len() as int) =~= rest);
    }
}

/// The entry parser recovers an encoded key/value pair.
pub proof fn lemma_parse_entry_wire(k: Seq<char>, v: Seq<char>)
    requires
        spec_entry_body(k, v).len() < 0x10000000000000000,
    ensures
        spec_parse_entry(spec_entry_body(k, v)) == Some((k, v)),
{
    let body = spec_entry_body(k, v);
    let vsec = spec_str_section(0x12, v);
    assert(encode_utf8(k).len() < 0x10000000000000000);
    assert(encode_utf8(v).len() < 0x10000000000000000);
    assert(body =~= spec_str_section(0x0A, k) + vsec);
    lemma_parse_str_wire(0x0A, k, vsec);
    assert(spec_parse_str(0x0A, body) == Some((k, vsec)));
    assert(vsec =~= spec_str_section(0x12, v) + Seq::<u8>::empty());
    lemma_parse_str_wire(0x12, v, Seq::<u8>::empty());
}

/// The entries parser recovers the whole encoded metadata section.
#[verifier::rlimit(60)]
pub proof fn lemma_parse_entries_wire(md: Seq<(Seq<char>, Seq<char>)>)
    requires
        forall|i: int|
            0 <= i < md.len() ==> (#[trigger] spec_entry_body(md[i].0, md[i].1)).len()
                < 0x10000000000000000,
    ensures
        spec_parse_entries(spec_metadata_wire(md)) == Some(md),
    decreases md.len(),
{
    let b = spec_metadata_wire(md);
    if md.len() == 0 {
        assert(Seq::<(Seq<char>, Seq<char>)>::empty() =~= md);
    } else {
        let body = spec_entry_body(md[0].0, md[0].1);
        let rest = spec_metadata_wire(md.drop_first());
        assert(b =~= (seq![0x22u8] + spec_varint(body.len()) + body) + rest);
        assert(b[0] == 0x22);
        lemma_parse_varint_encode(body.len(), body + rest);
        assert(b.drop_first() =~= spec_varint(body.len()) + (body + rest));
        let c = spec_varint(body.len()).len();
        assert(b.len() - 1 - c == body.len() + rest.len());
        assert(b.subrange(1 + c as int, 1 + c + body.len() as int) =~= body);
        lemma_parse_entry_wire(md[0].0, md[0].1);
        assert(b.skip(1 + c + body.len() as int) =~= rest);
        assert(forall|i: int|
            0 <= i < md.drop_first().len() ==> md.drop_first()[i] == md[i + 1]);
        lemma_parse_entries_wire(md.drop_first());
        assert(seq![md[0]] + md.drop_first() =~= md);
    }
}

/// The record parser inverts the record encoder: the canonical wire form of
/// any record parses back to exactly that record.
pub proof fn lemma_parse_record_wire(v: PayloadView)
    requires
        wire_sizes_ok(v),
    ensures
        spec_parse_record(spec_wire(v)) == Some(v),
{
    let b = spec_wire(v);
    let s_cid = spec_str_section(0x12, v.client_id);
    let s_sg = spec_str_section(0x1A, v.sign);
    let s_md = spec_metadata_wire(v.metadata);
    let r1 = s_cid + (s_sg + s_md);
    let r2 = s_sg + s_md;
    assert(b =~= spec_ts_section(v.timestamp) + r1);
    assert(r1.len() != 0 ==> r1[0] != 0x08) by {
        if v.client_id.len() != 0 {
            assert(r1[0] == 0x12);
        } else if v.sign.len() != 0 {
            assert(r1 =~= r2);
            assert(r1[0] == 0x1A);
        } else if v.metadata.len() != 0 {
            assert(r1 =~= s_md);
            assert(r1[0] == 0x22);
        } else {
            assert(r1 =~= Seq::<u8>::empty());
        }
    };
    lemma_parse_ts_wire(v.timestamp, r1);
    assert(v.client_id.len() == 0 ==> r2.len() == 0 || r2[0] != 0x12) by {
        if v.sign.len() != 0 {
            assert(r2[0] == 0x1A);
        } else if v.metadata.len() != 0 {
            assert(r2 =~= s_md);
            assert(r2[0] == 0x22);
        } else {
            assert(r2 =~= Seq::<u8>::empty());
        }
    };
    assert(r1 =~= s_cid + r2);
    lemma_parse_str_wire(0x12, v.client_id, r2);
    assert(v.sign.len() == 0 ==> s_md.len() == 0 || s_md[0] != 0x1A) by {
        if v.metadata.len() != 0 {
            assert(s_md[0] == 0x22);
        }
    };
    assert(r2 =~= s_sg + s_md);
    lemma_parse_str_wire(0x1A, v.sign, s_md);
    lemma_parse_entries_wire(v.metadata);
    let parsed = spec_parse_record(b).unwrap();
    assert(parsed =~= v);
}

/// The view of a vector of string pairs, as `PayloadView` holds it.
pub open spec fn pairs_view(md: Seq<(String, String)>) -> Seq<(Seq<char>, Seq<char>)> {
    Seq::new(md.len(), |i: int| (md[i].0@, md[i].1@))
}

/// Byte-for-byte equality of two buffers.
pub fn bytes_equal(a: &[u8], b: &[u8]) -> (r: bool)
    ensures
        r <==> a@ == b@,
{
    if a.len() != b.len() {
        return false;
    }
    let mut i: usize = 0;
    while i < a.len()
        invariant
            a@.len() == b@.len(),
            i <= a@.len(),
            forall|j: int| 0 <= j < i ==> a@[j] == b@[j],
        decreases a@.len() - i,
    {
        if a[i] != b[i] {
            return false;
        }
        i = i + 1;
    }
    proof {
        assert(a@ =~= b@);
    }
    true
}

/// Reads an optional string field with the given tag at `pos`, following
/// the spec parser exactly.
pub fn read_str_field(tag: u8, b: &[u8], pos: usize) -> (r: Option<(String, usize)>)
    requires
        pos <= b@.len(),
    ensures
        match spec_parse_str(tag, b@.skip(pos as int)) {
            Some((s, rest)) => r is Some && r.unwrap().0@ == s && pos <= r.unwrap().1 <= b@.len()
                && b@.skip(r.unwrap().1 as int) == rest,
            None => r is None,
        },
{
    let ghost sub = b@.skip(pos as int);
    if pos >= b.len() || b[pos] != tag {
        let empty = String::new();
        return Some((empty, pos));
    }
    proof {
        assert(sub[0] == tag);
        assert(sub.drop_first() =~= b@.skip(pos as int + 1));
    }
    match read_varint(b, pos + 1) {
        None => {
            proof {
                match spec_parse_varint(sub.drop_first()) {
                    None => {},
                    Some((len, c)) => {
                        assert(len >= 0x10000000000000000);
                        assert(sub.len() <= b@.len());
                        assert(b@.len() < 0x10000000000000000);
                    },
                }
            }
            None
        },
        Some((len64, p2)) => {
            proof {
                lemma_parse_varint_k_consumed(sub.drop_first(), 10);
                let (len, c) = spec_parse_varint(sub.drop_first()).unwrap();
                assert(p2 == pos + 1 + c);
                assert(sub.len() - 1 - c == b@.len() - p2);
            }
            let remaining = b.len() - p2;
            if len64 > remaining as u64 {
                return None;
            }
            let len = len64 as usize;
            let bytes = slice_subrange(b, p2, p2 + len);
            proof {
                let c = spec_parse_varint(sub.drop_first()).unwrap().1;
                assert(bytes@ =~= sub.subrange(1 + c as int, 1 + c + len as int));
            }
            let v = slice_to_vec(bytes);
            match bytes_to_string(v) {
                None => None,
                Some(s) => {
                    proof {
                        encode_utf8_decode_utf8(s@);
                        let c = spec_parse_varint(sub.drop_first()).unwrap().1;
                        assert(b@.skip((p2 + len) as int) =~= sub.skip(1 + c + len as int));
                    }
                    Some((s, p2 + len))
                },
            }
        },
    }
}

/// Parses one entry body: optional key, optional value, nothing left over.
pub fn read_entry(body: &[u8]) -> (r: Option<(String, String)>)
    ensures
        match spec_parse_entry(body@) {
            Some((k, v)) => r is Some && r.unwrap().0@ == k && r.unwrap().1@ == v,
            None => r is None,
        },
{
    proof {
        assert(body@.skip(0) =~= body@);
    }
    match read_str_field(0x0A, body, 0) {
        None => None,
        Some((k, p1)) => match read_str_field(0x12, body, p1) {
            None => None,
            Some((v, p2)) => {
                if p2 == body.len() {
                    proof {
                        assert(body@.skip(p2 as int).len() == 0);
                    }
                    Some((k, v))
                } else {
                    proof {
                        assert(body@.skip(p2 as int).len() != 0);
                    }
                    None
                }
            },
        },
    }
}

/// Deserializes a record from its canonical wire form: parses the four
/// sections, then re-encodes the result and accepts only an exact match,
/// so a `Some` answer means the input is precisely the canonical encoding
/// of the returned record.
#[verifier::rlimit(60)]
pub fn decode_record(b: &[u8]) -> (r: Option<CheckoutPayloadModel>)
    ensures
        match r {
            Some(m) => spec_parse_record(b@) == Some(m@) && b@ == spec_wire(m@),
            None => spec_parse_record(b@) is None || b@ != spec_wire(
                spec_parse_record(b@).unwrap(),
            ),
        },
{
    let mut pos: usize = 0;
    let mut ts: i64 = 0;
    if b.len() > 0 && b[0] == 0x08 {
        proof {
            assert(b@.drop_first() =~= b@.skip(1));
        }
        match read_varint(b, 1) {
            None => {
                proof {
                    match spec_parse_varint(b@.skip(1)) {
                        None => {},
                        Some((v, c)) => {
                            assert(v >= 0x10000000000000000);
                        },
                    }
                }
                return None;
            },
            Some((v, p2)) => {
                proof {
                    lemma_parse_varint_k_consumed(b@.skip(1), 10);
                }
                ts = wire_to_i64(v);
                pos = p2;
            },
        }
    }
    proof {
        if !(b@.len() > 0 && b@[0] == 0x08) {
            assert(b@.skip(0) =~= b@);
        }
        assert(spec_parse_ts(b@) == Some((ts, b@.skip(pos as int))));
    }
    let cid: String;
    match read_str_field(0x12, b, pos) {
        None => {
            return None;
        },
        Some((s, p)) => {
            cid = s;
            pos = p;
        },
    }
    let sg: String;
    match read_str_field(0x1A, b, pos) {
        None => {
            return None;
        },
        Some((s, p)) => {
            sg = s;
            pos = p;
        },
    }
    let ghost pos3 = pos as int;
    let ghost base = b@.skip(pos3);
    let mut md: Vec<(String, String)> = Vec::new();
    proof {
        assert(pairs_view(md@) =~= Seq::<(Seq<char>, Seq<char>)>::empty());
        match spec_parse_entries(base) {
            None => {},
            Some(tail) => {
                assert(pairs_view(md@) + tail =~= tail);
            },
        }
    }
    proof {
        assert(spec_parse_entries(base) is None ==> spec_parse_record(b@) is None);
    }
    while pos < b.len()
        invariant
            pos3 <= pos <= b@.len(),
            base == b@.skip(pos3),
            spec_parse_entries(base) is None ==> spec_parse_record(b@) is None,
            ({
                match spec_parse_entries(b@.skip(pos as int)) {
                    None => spec_parse_entries(base) is None,
                    Some(tail) => spec_parse_entries(base) == Some(pairs_view(md@) + tail),
                }
            }),
        decreases b@.len() - pos,
    {
        let ghost sub = b@.skip(pos as int);
        if b[pos] != 0x22 {
            proof {
                assert(sub.len() > 0);
                assert(sub[0] == b@[pos as int]);
                assert(spec_parse_entries(sub) is None);
            }
            return None;
        }
        proof {
            assert(sub[0] == 0x22);
            assert(sub.drop_first() =~= b@.skip(pos as int + 1));
        }
        match read_varint(b, pos + 1) {
            None => {
                proof {
                    match spec_parse_varint(sub.drop_first()) {
                        None => {},
                        Some((len, c)) => {
                            assert(len >= 0x10000000000000000);
                            assert(sub.len() <= b@.len());
                            assert(b@.len() < 0x10000000000000000);
                        },
                    }
                    assert(spec_parse_entries(sub) is None);
                }
                return None;
            },
            Some((len64, p2)) => {
                proof {
                    lemma_parse_varint_k_consumed(sub.drop_first(), 10);
                    let (len, c) = spec_parse_varint(sub.drop_first()).unwrap();
                    assert(p2 == pos + 1 + c);
                    assert(sub.len() - 1 - c == b@.len() - p2);
                }
                let remaining = b.len() - p2;
                if len64 > remaining as u64 {
                    return None;
                }
                let len = len64 as usize;
                let body = slice_subrange(b, p2, p2 + len);
                proof {
                    let c = spec_parse_varint(sub.drop_first()).unwrap().1;
                    assert(body@ =~= sub.subrange(1 + c as int, 1 + c + len as int));
                    assert(b@.skip((p2 + len) as int) =~= sub.skip(1 + c + len as int));
                }
                match read_entry(body) {
                    None => {
                        return None;
                    },
                    Some((k, v)) => {
                        let ghost kk = k@;
                        let ghost vv = v@;
                        let ghost old_md = md@;
                        md.push((k, v));
                        proof {
                            assert(pairs_view(md@) =~= pairs_view(old_md) + seq![(kk, vv)]);
                            match spec_parse_entries(b@.skip((p2 + len) as int)) {
                                None => {},
                                Some(tail) => {
                                    assert(spec_parse_entries(sub) == Some(seq![(kk, vv)] + tail));
                                    assert(pairs_view(old_md) + (seq![(kk, vv)] + tail) =~= (
                                    pairs_view(old_md) + seq![(kk, vv)]) + tail);
                                },
                            }
                        }
                        pos = p2 + len;
                    },
                }
            },
        }
    }
    proof {
        assert(b@.skip(pos as int).len() == 0);
        assert(b@.skip(pos as int) =~= Seq::<u8>::empty());
        assert(spec_parse_entries(b@.skip(pos as int)) == Some(
            Seq::<(Seq<char>, Seq<char>)>::empty(),
        ));
        assert(pairs_view(md@) + Seq::<(Seq<char>, Seq<char>)>::empty() =~= pairs_view(md@));
    }
    let m = CheckoutPayloadModel { timestamp: ts, client_id: cid, sign: sg, metadata: md };
    proof {
        assert(m@.metadata =~= pairs_view(m.metadata@));
        assert(m@ =~= PayloadView {
            timestamp: ts,
            client_id: m.client_id@,
            sign: m.sign@,
            metadata: pairs_view(m.metadata@),
        });
        assert(spec_parse_record(b@) == Some(m@));
    }
    let enc = encode_record(&m);
    if bytes_equal(enc.as_slice(), b) {
        Some(m)
    } else {
        None
    }
}

} // verus!
