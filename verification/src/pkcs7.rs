//! PKCS#7 padding for a 16-byte block cipher.
//!
//! Plaintext is always extended: when the length is already a multiple of 16,
//! a full block of padding is added, so that unpadding is unambiguous.

use vstd::prelude::*;
use vstd::slice::slice_to_vec;

verus! {

/// Number of padding bytes added to a plaintext of length `n`: always in 1..=16.
pub open spec fn pad_amount(n: nat) -> nat {
    (16 - n % 16) as nat
}

/// The padded plaintext: the data followed by `pad_amount` copies of the
/// pad amount itself.
pub open spec fn spec_pad(data: Seq<u8>) -> Seq<u8> {
    data + Seq::new(pad_amount(data.len()), |i: int| pad_amount(data.len()) as u8)
}

/// Strict unpadding: succeeds only on a non-empty block-aligned buffer whose
/// last byte `n` is in 1..=16 and whose last `n` bytes all equal `n`.
pub open spec fn spec_unpad(data: Seq<u8>) -> Option<Seq<u8>> {
    if data.len() == 0 || data.len() % 16 != 0 {
        None
    } else {
        let n = data.last() as int;
        if 1 <= n <= 16 && (forall|i: int|
            data.len() - n <= i < data.len() ==> data[i] == data.last()) {
            Some(data.take(data.len() - n))
        } else {
            None
        }
    }
}

/// Unpadding undoes padding exactly.
pub proof fn lemma_unpad_pad(data: Seq<u8>)
    ensures
        spec_unpad(spec_pad(data)) == Some(data),
{
    let p = spec_pad(data);
    let a = pad_amount(data.len());
    assert(p.len() == data.len() + a);
    assert(p.len() % 16 == 0) by {
        assert(data.len() + a == 16 * (data.len() / 16) + 16) by {
            assert(data.len() == 16 * (data.len() / 16) + data.len() % 16);
        };
    };
    assert(p.last() == a as u8);
    assert(forall|i: int| p.len() - a <= i < p.len() ==> p[i] == p.last());
    assert(p.take(p.len() - a as int) =~= data);
}

/// Valid padding is canonical: if unpadding succeeds, the buffer is exactly
/// the padded form of the result.
pub proof fn lemma_unpad_canonical(data: Seq<u8>, body: Seq<u8>)
    requires
        spec_unpad(data) == Some(body),
    ensures
        data == spec_pad(body),
        body.len() < data.len(),
{
    let n = data.last() as int;
    assert(body == data.take(data.len() - n));
    assert(body.len() == data.len() - n);
    assert(pad_amount(body.len()) == n) by {
        assert(data.len() % 16 == 0);
        if n == 16 {
            assert(body.len() % 16 == 0) by {
                assert(body.len() == data.len() - 16);
            };
        } else {
            assert(body.len() % 16 == (16 - n) as nat) by (nonlinear_arith)
                requires
                    data.len() % 16 == 0,
                    body.len() == data.len() - n,
                    1 <= n < 16,
            ;
        }
    };
    assert(data =~= spec_pad(body));
}

/// The padded buffer is block-aligned and longer than the data by 1..=16 bytes.
pub proof fn lemma_pad_aligned(data: Seq<u8>)
    ensures
        spec_pad(data).len() == data.len() + pad_amount(data.len()),
        spec_pad(data).len() % 16 == 0,
        1 <= pad_amount(data.len()) <= 16,
{
    let a = pad_amount(data.len());
    assert(data.len() + a == 16 * (data.len() / 16) + 16) by {
        assert(data.len() == 16 * (data.len() / 16) + data.len() % 16);
    };
}

/// Appends PKCS#7 padding to a copy of `data`.
pub fn pad_block(data: &[u8]) -> (r: Vec<u8>)
    requires
        data@.len() + 16 <= usize::MAX,
    ensures
        r@ == spec_pad(data@),
        r@.len() == data@.len() + pad_amount(data@.len()),
        r@.len() % 16 == 0,
{
    let add: usize = 16 - data.len() % 16;
    let mut v: Vec<u8> = slice_to_vec(data);
    let mut i: usize = 0;
    while i < add
        invariant
            data@.len() + 16 <= usize::MAX,
            add == pad_amount(data@.len()),
            i <= add,
            v@ == data@ + Seq::new(i as nat, |j: int| add as u8),
        decreases add - i,
    {
        v.push(add as u8);
        proof {
            assert(v@ =~= data@ + Seq::new((i + 1) as nat, |j: int| add as u8));
        }
        i = i + 1;
    }
    proof {
        assert(v@ =~= spec_pad(data@));
        lemma_pad_aligned(data@);
    }
    v
}

/// Removes PKCS#7 padding; fails on an empty, misaligned, or badly padded buffer.
pub fn unpad_block(data: &[u8]) -> (r: Option<Vec<u8>>)
    ensures
        match r {
            Some(v) => spec_unpad(data@) == Some(v@),
            None => spec_unpad(data@) is None,
        },
{
    let len = data.len();
    if len == 0 || len % 16 != 0 {
        return None;
    }
    let n = data[len - 1];
    if n < 1 || n > 16 {
        return None;
    }
    let start = len - (n as usize);
    let mut i = start;
    while i < len
        invariant
            len == data@.len(),
            1 <= n <= 16,
            n == data@.last(),
            start == len - n,
            start <= i <= len,
            forall|j: int| start <= j < i ==> data@[j] == data@.last(),
        decreases len - i,
    {
        if data[i] != n {
            return None;
        }
        i = i + 1;
    }
    let mut v: Vec<u8> = slice_to_vec(data);
    v.truncate(start);
    proof {
        assert(v@ == data@.take(data@.len() - n as int));
    }
    Some(v)
}

} // verus!
