//! Encodings used by the protocol.
//!
//! Weights are fixed-point integers in micro-units. A weight is embedded into
//! the sharing field by reduction modulo the field prime, which is injective
//! for magnitudes up to `FIELD_HALF`. A share — a vector of field elements —
//! is framed as little-endian 8-byte words before encryption, and the framing
//! is checked again after decryption.

use vstd::prelude::*;
use crate::field::{FIELD_P, FIELD_HALF};
use crate::errors::CryptoError;

verus! {

/// Fixed-point micro-units per one real unit of weight.
pub const FIXED_SCALE: i64 = 1000000;

/// The field element standing for the fixed-point weight `w`.
pub open spec fn encode_weight_spec(w: i64) -> u64 {
    (((w as int) % (FIELD_P as int)) as u64)
}

/// The fixed-point weight a field element stands for: small elements are
/// non-negative weights, large ones are negative.
pub open spec fn decode_weight_spec(e: u64) -> i64 {
    if e <= FIELD_HALF {
        e as i64
    } else {
        ((e as int) - (FIELD_P as int)) as i64
    }
}

/// Whether a fixed-point weight is small enough to embed injectively.
pub open spec fn weight_in_range(w: i64) -> bool {
    -(FIELD_HALF as int) <= w as int <= FIELD_HALF as int
}

/// Embeds a fixed-point weight into the field. Fails exactly on weights too
/// large in magnitude to be recovered unambiguously.
pub fn encode_weight(w: i64) -> (r: Option<u64>)
    ensures
        r is Some <==> weight_in_range(w),
        r matches Some(e) ==> e == encode_weight_spec(w) && e < FIELD_P,
{
    if w >= 0 {
        if w <= FIELD_HALF as i64 {
            proof {
                vstd::arithmetic::div_mod::lemma_small_mod(w as nat, FIELD_P as nat);
            }
            Some(w as u64)
        } else {
            None
        }
    } else {
        if w >= -(FIELD_HALF as i64) {
            proof {
                vstd::arithmetic::div_mod::lemma_mod_add_multiples_vanish(
                    w as int,
                    FIELD_P as int,
                );
                vstd::arithmetic::div_mod::lemma_small_mod(
                    (w as int + FIELD_P as int) as nat,
                    FIELD_P as nat,
                );
            }
            Some(FIELD_P - ((-w) as u64))
        } else {
            None
        }
    }
}

/// Recovers the fixed-point weight a field element stands for.
pub fn decode_weight(e: u64) -> (r: i64)
    requires
        e < FIELD_P,
    ensures
        r == decode_weight_spec(e),
        weight_in_range(r),
{
    if e <= FIELD_HALF {
        e as i64
    } else {
        -((FIELD_P - e) as i64)
    }
}

/// Embedding a weight in the field and reading it back is the identity on
/// every weight the embedding accepts.
pub proof fn lemma_weight_roundtrip(w: i64)
    requires
        weight_in_range(w),
    ensures
        decode_weight_spec(encode_weight_spec(w)) == w,
{
    if w >= 0 {
        vstd::arithmetic::div_mod::lemma_small_mod(w as nat, FIELD_P as nat);
    } else {
        vstd::arithmetic::div_mod::lemma_mod_add_multiples_vanish(w as int, FIELD_P as int);
        vstd::arithmetic::div_mod::lemma_small_mod(
            (w as int + FIELD_P as int) as nat,
            FIELD_P as nat,
        );
    }
}

/// The little-endian bytes of one field element.
pub open spec fn u64_le_bytes(v: u64) -> Seq<u8> {
    seq![
        (v & 0xff) as u8,
        ((v >> 8) & 0xff) as u8,
        ((v >> 16) & 0xff) as u8,
        ((v >> 24) & 0xff) as u8,
        ((v >> 32) & 0xff) as u8,
        ((v >> 40) & 0xff) as u8,
        ((v >> 48) & 0xff) as u8,
        ((v >> 56) & 0xff) as u8,
    ]
}

/// The field element read from eight little-endian bytes.
pub open spec fn u64_from_le(b: Seq<u8>) -> u64
    recommends
        b.len() == 8,
{
    (b[0] as u64) | ((b[1] as u64) << 8) | ((b[2] as u64) << 16) | ((b[3] as u64) << 24)
        | ((b[4] as u64) << 32) | ((b[5] as u64) << 40) | ((b[6] as u64) << 48) | ((b[7]
        as u64) << 56)
}

/// Reading back the little-endian bytes of a word yields the word.
pub proof fn lemma_u64_le_roundtrip(v: u64)
    ensures
        u64_from_le(u64_le_bytes(v)) == v,
{
    assert(((v & 0xff) as u8 as u64) | ((((v >> 8) & 0xff) as u8 as u64) << 8) | ((((v >> 16)
        & 0xff) as u8 as u64) << 16) | ((((v >> 24) & 0xff) as u8 as u64) << 24) | ((((v >> 32)
        & 0xff) as u8 as u64) << 32) | ((((v >> 40) & 0xff) as u8 as u64) << 40) | ((((v >> 48)
        & 0xff) as u8 as u64) << 48) | ((((v >> 56) & 0xff) as u8 as u64) << 56) == v)
        by (bit_vector);
}

/// The byte framing of a whole share: each element as eight little-endian
/// bytes, in order.
pub open spec fn share_bytes(s: Seq<u64>) -> Seq<u8> {
    Seq::new(8 * s.len(), |i: int| u64_le_bytes(s[i / 8])[i % 8])
}

/// The share read back from a byte frame: `None` unless the frame is a whole
/// number of words, every one of them a field element.
pub open spec fn decode_share_bytes(b: Seq<u8>) -> Option<Seq<u64>> {
    if b.len() % 8 != 0 {
        None
    } else {
        let vals = Seq::new(b.len() / 8, |j: int| u64_from_le(b.subrange(8 * j, 8 * j + 8)));
        if forall|j: int| 0 <= j < vals.len() ==> #[trigger] vals[j] < FIELD_P {
            Some(vals)
        } else {
            None
        }
    }
}

/// Frames a share as bytes.
pub fn encode_share(s: &Vec<u64>) -> (r: Vec<u8>)
    ensures
        r@ == share_bytes(s@),
{
    let mut r: Vec<u8> = Vec::new();
    let mut j: usize = 0;
    while j < s.len()
        invariant
            j <= s.len(),
            r@.len() == 8 * j,
            forall|i: int| 0 <= i < 8 * j ==> #[trigger] r@[i] == u64_le_bytes(s@[i / 8])[i % 8],
        decreases s.len() - j,
    {
        let v = s[j];
        r.push((v & 0xff) as u8);
        r.push(((v >> 8) & 0xff) as u8);
        r.push(((v >> 16) & 0xff) as u8);
        r.push(((v >> 24) & 0xff) as u8);
        r.push(((v >> 32) & 0xff) as u8);
        r.push(((v >> 40) & 0xff) as u8);
        r.push(((v >> 48) & 0xff) as u8);
        r.push(((v >> 56) & 0xff) as u8);
        proof {
            assert forall|i: int| 0 <= i < 8 * (j + 1) implies #[trigger] r@[i] == u64_le_bytes(
                s@[i / 8],
            )[i % 8] by {
                if 8 * j <= i {
                    vstd::arithmetic::div_mod::lemma_fundamental_div_mod_converse(
                        i,
                        8,
                        j as int,
                        i - 8 * j,
                    );
                }
            }
        }
        j = j + 1;
    }
    proof {
        assert(r@ =~= share_bytes(s@));
    }
    r
}

/// Reads a share back from bytes, rejecting any frame that is not a whole
/// number of words or holds a value outside the field.
pub fn decode_share(b: &Vec<u8>) -> (r: Result<Vec<u64>, CryptoError>)
    ensures
        r is Ok <==> decode_share_bytes(b@) is Some,
        r matches Ok(s) ==> Some(s@) == decode_share_bytes(b@) && forall|j: int|
            0 <= j < s@.len() ==> #[trigger] s@[j] < FIELD_P,
        r matches Err(e) ==> e == CryptoError::MalformedShare,
{
    if b.len() % 8 != 0 {
        return Err(CryptoError::MalformedShare);
    }
    let n = b.len() / 8;
    proof {
        vstd::arithmetic::div_mod::lemma_fundamental_div_mod(b@.len() as int, 8);
    }
    let ghost vals = Seq::new(b@.len() / 8, |j: int| u64_from_le(b@.subrange(8 * j, 8 * j + 8)));
    let mut r: Vec<u64> = Vec::new();
    let mut j: usize = 0;
    while j < n
        invariant
            j <= n,
            n == b@.len() / 8,
            8 * n == b@.len(),
            b@.len() <= usize::MAX,
            b@.len() % 8 == 0,
            vals == Seq::new(b@.len() / 8, |j: int| u64_from_le(b@.subrange(8 * j, 8 * j + 8))),
            r@ == vals.subrange(0, j as int),
            forall|i: int| 0 <= i < j ==> #[trigger] vals[i] < FIELD_P,
        decreases n - j,
    {
        let off = 8 * j;
        let v: u64 = (b[off] as u64) | ((b[off + 1] as u64) << 8) | ((b[off + 2] as u64) << 16)
            | ((b[off + 3] as u64) << 24) | ((b[off + 4] as u64) << 32) | ((b[off + 5] as u64)
            << 40) | ((b[off + 6] as u64) << 48) | ((b[off + 7] as u64) << 56);
        proof {
            let bs = b@.subrange(8 * j as int, 8 * j + 8);
            assert(bs[0] == b@[8 * j as int]);
            assert(v == u64_from_le(bs));
        }
        if v >= FIELD_P {
            proof {
                assert(vals[j as int] >= FIELD_P);
                assert(decode_share_bytes(b@) is None);
            }
            return Err(CryptoError::MalformedShare);
        }
        r.push(v);
        proof {
            assert(r@ =~= vals.subrange(0, j as int + 1));
        }
        j = j + 1;
    }
    proof {
        assert(r@ =~= vals);
        assert(decode_share_bytes(b@) == Some(vals));
    }
    Ok(r)
}

/// Framing a share and reading the frame back is the identity on every share
/// made of field elements.
pub proof fn lemma_share_codec_roundtrip(s: Seq<u64>)
    requires
        forall|j: int| 0 <= j < s.len() ==> #[trigger] s[j] < FIELD_P,
    ensures
        decode_share_bytes(share_bytes(s)) == Some(s),
{
    let b = share_bytes(s);
    assert(b.len() == 8 * s.len());
    vstd::arithmetic::div_mod::lemma_mod_multiples_basic(s.len() as int, 8);
    let vals = Seq::new(b.len() / 8, |j: int| u64_from_le(b.subrange(8 * j, 8 * j + 8)));
    assert(b.len() as int / 8 == s.len()) by {
        vstd::arithmetic::div_mod::lemma_fundamental_div_mod_converse(
            b.len() as int,
            8,
            s.len() as int,
            0,
        );
    }
    assert forall|j: int| 0 <= j < s.len() implies #[trigger] vals[j] == s[j] by {
        let chunk = b.subrange(8 * j, 8 * j + 8);
        assert forall|k: int| 0 <= k < 8 implies #[trigger] chunk[k] == u64_le_bytes(s[j])[k] by {
            assert(chunk[k] == b[8 * j + k]);
            vstd::arithmetic::div_mod::lemma_fundamental_div_mod_converse(8 * j + k, 8, j, k);
        }
        assert(chunk =~= u64_le_bytes(s[j]));
        lemma_u64_le_roundtrip(s[j]);
    }
    assert(vals =~= s);
}

} // verus!
