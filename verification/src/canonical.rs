//! Canonical JSON rendering for the attestation record that is signed.
//!
//! The canonical form fixes the field order by the record's declared schema
//! and escapes string contents exactly as a standard JSON serializer does:
//! the quote, the backslash, and every control byte below `0x20`, with the
//! short forms `\b \t \n \f \r` and lowercase `\u00..` otherwise. Escaping
//! works byte by byte on the UTF-8 form; bytes of multi-byte characters are
//! at or above `0x80` and pass through unchanged.

use vstd::prelude::*;
use vstd::slice::slice_to_vec;

verus! {

/// The lowercase hex digit of a value below 16.
pub open spec fn hex_digit(n: u8) -> u8 {
    if n < 10 {
        (0x30 + n) as u8
    } else {
        (0x57 + n) as u8
    }
}

/// The JSON escape of one byte of UTF-8 string content.
pub open spec fn json_escape_byte(b: u8) -> Seq<u8> {
    if b == 0x22 {  // quote
        seq![0x5Cu8, 0x22u8]
    } else if b == 0x5C {  // backslash
        seq![0x5Cu8, 0x5Cu8]
    } else if b == 0x08 {
        seq![0x5Cu8, 0x62u8]
    } else if b == 0x09 {
        seq![0x5Cu8, 0x74u8]
    } else if b == 0x0A {
        seq![0x5Cu8, 0x6Eu8]
    } else if b == 0x0C {
        seq![0x5Cu8, 0x66u8]
    } else if b == 0x0D {
        seq![0x5Cu8, 0x72u8]
    } else if b < 0x20 {
        seq![0x5Cu8, 0x75u8, 0x30u8, 0x30u8, hex_digit(b / 16), hex_digit(b % 16)]
    } else {
        seq![b]
    }
}

/// The JSON escape of a whole string content, byte by byte.
pub open spec fn json_escape_bytes(s: Seq<u8>) -> Seq<u8>
    decreases s.len(),
{
    if s.len() == 0 {
        Seq::<u8>::empty()
    } else {
        json_escape_byte(s[0]) + json_escape_bytes(s.drop_first())
    }
}

/// Appends a byte slice verbatim.
pub fn append_bytes(out: &mut Vec<u8>, b: &[u8])
    ensures
        final(out)@ == old(out)@ + b@,
{
    let mut tmp = slice_to_vec(b);
    out.append(&mut tmp);
}

/// Appends the JSON-escaped form of a byte slice of string content.
pub fn append_escaped(out: &mut Vec<u8>, s: &[u8])
    ensures
        final(out)@ == old(out)@ + json_escape_bytes(s@),
{
    let mut i: usize = 0;
    proof {
        assert(s@.skip(0) =~= s@);
    }
    while i < s.len()
        invariant
            i <= s@.len(),
            out@ + json_escape_bytes(s@.skip(i as int)) == old(out)@ + json_escape_bytes(s@),
        decreases s@.len() - i,
    {
        let ghost pre = out@;
        let ghost sub = s@.skip(i as int);
        let b = s[i];
        proof {
            assert(sub[0] == b);
            assert(sub.drop_first() =~= s@.skip(i as int + 1));
        }
        if b == 0x22 {
            out.push(0x5C);
            out.push(0x22);
        } else if b == 0x5C {
            out.push(0x5C);
            out.push(0x5C);
        } else if b == 0x08 {
            out.push(0x5C);
            out.push(0x62);
        } else if b == 0x09 {
            out.push(0x5C);
            out.push(0x74);
        } else if b == 0x0A {
            out.push(0x5C);
            out.push(0x6E);
        } else if b == 0x0C {
            out.push(0x5C);
            out.push(0x66);
        } else if b == 0x0D {
            out.push(0x5C);
            out.push(0x72);
        } else if b < 0x20 {
            out.push(0x5C);
            out.push(0x75);
            out.push(0x30);
            out.push(0x30);
            let hi = b / 16;
            let lo = b % 16;
            out.push(if hi < 10 { 0x30 + hi } else { 0x57 + hi });
            out.push(if lo < 10 { 0x30 + lo } else { 0x57 + lo });
        } else {
            out.push(b);
        }
        proof {
            assert(out@ =~= pre + json_escape_byte(b));
            assert(pre + (json_escape_byte(b) + json_escape_bytes(s@.skip(i as int + 1))) =~= (pre
                + json_escape_byte(b)) + json_escape_bytes(s@.skip(i as int + 1)));
        }
        i = i + 1;
    }
    proof {
        assert(s@.skip(s@.len() as int) =~= Seq::<u8>::empty());
    }
}

} // verus!
