//! SHA-1 digests of execution traces, and the threshold predicate that makes
//! an input a witness: the digest, read as a big-endian 160-bit integer, must
//! lie below `2^kappa`.

use vstd::prelude::*;
use vstd::arithmetic::power2::{pow2, lemma_pow2_adds, lemma_pow2_strictly_increases, lemma2_to64};
use sha1::Digest;

verus! {

/// The SHA-1 digest of a byte string: a function of the bytes alone.
/// Named, not defined; nothing here re-states the SHA-1 algorithm.
pub uninterp spec fn sha1_of(data: Seq<u8>) -> Seq<u8>;

/// Relies on `sha1::Sha1::digest`, the one-shot API of the `sha1` crate:
/// the 20-byte SHA-1 digest of `data`, a pure function of `data`.
#[verifier::external_body]
pub(crate) fn sha1_digest(data: &Vec<u8>) -> (r: Vec<u8>)
    ensures
        r@ == sha1_of(data@),
        r@.len() == 20,
{
    sha1::Sha1::digest(data.as_slice()).to_vec()
}

/// A byte string read as a big-endian integer.
pub open spec fn hash_value(h: Seq<u8>) -> nat
    decreases h.len(),
{
    if h.len() == 0 {
        0
    } else {
        hash_value(h.drop_last()) * 256 + (h.last() as nat)
    }
}

/// A big-endian integer of `n` bytes lies below `2^(8n)`.
pub proof fn lemma_hash_value_bound(s: Seq<u8>)
    ensures
        hash_value(s) < pow2((8 * s.len()) as nat),
    decreases s.len(),
{
    lemma2_to64();
    if s.len() > 0 {
        lemma_hash_value_bound(s.drop_last());
        lemma_pow2_adds((8 * (s.len() - 1)) as nat, 8);
        let p = pow2((8 * (s.len() - 1)) as nat);
        let v = hash_value(s.drop_last());
        let l = s.last();
        assert(v * 256 + l < p * 256) by (nonlinear_arith)
            requires
                v < p,
                l < 256,
        ;
    }
}

/// Concatenation shifts the left part by the bit width of the right part.
pub proof fn lemma_hash_value_split(a: Seq<u8>, b: Seq<u8>)
    ensures
        hash_value(a + b) == hash_value(a) * pow2((8 * b.len()) as nat) + hash_value(b),
    decreases b.len(),
{
    lemma2_to64();
    if b.len() == 0 {
        assert(a + b =~= a);
        assert(pow2((8 * b.len()) as nat) == 1);
        assert(hash_value(b) == 0);
        assert(hash_value(a) * 1 == hash_value(a)) by (nonlinear_arith);
    } else {
        lemma_hash_value_split(a, b.drop_last());
        assert((a + b).drop_last() =~= a + b.drop_last());
        lemma_pow2_adds((8 * (b.len() - 1)) as nat, 8);
        let p = pow2((8 * (b.len() - 1)) as nat);
        let ha = hash_value(a);
        let hb = hash_value(b.drop_last());
        let l = b.last();
        assert((ha * p + hb) * 256 + l == ha * (p * 256) + (hb * 256 + l)) by (nonlinear_arith);
        assert(hash_value(a + b) == hash_value((a + b).drop_last()) * 256 + (a + b).last());
        assert((a + b).last() == b.last());
        assert(hash_value(b) == hb * 256 + b.last());
        assert((8 * b.len()) as nat == (8 * (b.len() - 1)) as nat + 8);
        assert(pow2((8 * b.len()) as nat) == p * pow2(8));
        assert(pow2(8) == 256);
        assert(hash_value(a + b.drop_last()) == ha * p + hb);
        assert(hash_value((a + b).drop_last()) == ha * p + hb);
        assert(hash_value(a + b) == (ha * p + hb) * 256 + l);
        assert(hash_value(a + b) == ha * (p * 256) + (hb * 256 + l));
        assert(hash_value(a + b) == ha * pow2((8 * b.len()) as nat) + hash_value(b));
    }
}

/// An all-zero byte string has value zero.
pub proof fn lemma_hash_value_zero(s: Seq<u8>)
    requires
        forall|i: int| 0 <= i < s.len() ==> s[i] == 0,
    ensures
        hash_value(s) == 0,
    decreases s.len(),
{
    if s.len() > 0 {
        lemma_hash_value_zero(s.drop_last());
    }
}

/// The leading-zero-bit reading of the threshold: with `z = 160 - kappa`,
/// the first `z / 8` bytes are zero and, where `z` is not a byte multiple,
/// the next byte's top `z % 8` bits are zero too.
pub open spec fn leading_zeros_ok(h: Seq<u8>, kappa: nat) -> bool
    recommends
        h.len() == 20,
        kappa <= 160,
{
    let z = (160 - kappa) as nat;
    let full = z / 8;
    let rem = z % 8;
    &&& forall|i: int| 0 <= i < full ==> h[i] == 0
    &&& (rem > 0 ==> h[full as int] < pow2((8 - rem) as nat))
}

/// A one-byte string reads as that byte.
proof fn lemma_hash_value_single(x: u8)
    ensures
        hash_value(seq![x]) == x,
{
    let s = seq![x];
    assert(s.len() == 1);
    assert(s.last() == x);
    assert(s.drop_last() =~= Seq::<u8>::empty());
    assert(hash_value(s.drop_last()) == 0);
}

/// A digest whose byte `i` is not zero is at least `2^(8 * (19 - i))`.
proof fn lemma_hash_high_byte(h: Seq<u8>, i: int)
    requires
        h.len() == 20,
        0 <= i < 20,
        h[i] >= 1,
    ensures
        hash_value(h) >= pow2((8 * (19 - i)) as nat),
{
    let a = h.take(i);
    let b = h.skip(i);
    assert(h =~= a + b);
    lemma_hash_value_split(a, b);
    let c = b.skip(1);
    assert(b =~= seq![h[i]] + c);
    lemma_hash_value_split(seq![h[i]], c);
    lemma_hash_value_single(h[i]);
    let p = pow2((8 * (19 - i)) as nat);
    let ha = hash_value(a);
    let pb = pow2((8 * (20 - i)) as nat);
    let hc = hash_value(c);
    let x = h[i];
    assert(hash_value(h) == ha * pb + (x * p + hc));
    assert(ha * pb + (x * p + hc) >= p) by (nonlinear_arith)
        requires
            x >= 1,
            ha >= 0,
            hc >= 0,
            pb >= 0,
            p >= 0,
    ;
}

/// The threshold predicate in both readings: the digest read big-endian lies
/// below `2^kappa` exactly when its leading `160 - kappa` bits are zero.
#[verifier::rlimit(60)]
#[verifier::spinoff_prover]
pub proof fn lemma_hash_threshold(h: Seq<u8>, kappa: nat)
    requires
        h.len() == 20,
        kappa <= 160,
    ensures
        (hash_value(h) < pow2(kappa)) == leading_zeros_ok(h, kappa),
{
    lemma2_to64();
    let z = (160 - kappa) as nat;
    let full = z / 8;
    let rem = z % 8;
    assert(8 * full + rem == z);
    assert(kappa == 8 * (20 - full) - rem);
    let a = h.take(full as int);
    let b = h.skip(full as int);
    assert(h =~= a + b);
    lemma_hash_value_split(a, b);

    if leading_zeros_ok(h, kappa) {
        lemma_hash_value_zero(a);
        assert(hash_value(h) == hash_value(b));
        if full == 20 {
            assert(b =~= Seq::<u8>::empty());
            assert(hash_value(h) == 0);
            assert(pow2(kappa) >= 1) by {
                vstd::arithmetic::power2::lemma_pow2_pos(kappa);
            }
        } else {
            let c = b.skip(1);
            assert(b =~= seq![h[full as int]] + c);
            lemma_hash_value_split(seq![h[full as int]], c);
            lemma_hash_value_single(h[full as int]);
            lemma_hash_value_bound(c);
            let p = pow2((8 * (19 - full)) as nat);
            let x = h[full as int];
            assert(hash_value(h) == x * p + hash_value(c));
            if rem == 0 {
                lemma_pow2_adds((8 * (19 - full)) as nat, 8);
                assert(x * p + hash_value(c) < p * 256) by (nonlinear_arith)
                    requires
                        x < 256,
                        hash_value(c) < p,
                ;
                assert(pow2(kappa) == p * 256);
            } else {
                lemma_pow2_adds((8 * (19 - full)) as nat, (8 - rem) as nat);
                let t = pow2((8 - rem) as nat);
                assert(x * p + hash_value(c) < t * p) by (nonlinear_arith)
                    requires
                        x < t,
                        hash_value(c) < p,
                        t >= 1,
                ;
                assert(pow2(kappa) == p * t);
                assert(t * p == p * t) by (nonlinear_arith);
            }
        }
    } else {
        // Some leading bit is set: the value reaches 2^kappa.
        if exists|i: int| 0 <= i < full && h[i] != 0 {
            let i = choose|i: int| 0 <= i < full && h[i] != 0;
            lemma_hash_high_byte(h, i);
            if 8 * (19 - i) != kappa {
                lemma_pow2_strictly_increases(kappa, (8 * (19 - i)) as nat);
            }
            assert(hash_value(h) >= pow2(kappa));
        } else {
            assert(rem > 0 && h[full as int] >= pow2((8 - rem) as nat));
            lemma_hash_high_byte(h, full as int);
            let p = pow2((8 * (19 - full)) as nat);
            let x = h[full as int];
            let c = b.skip(1);
            assert(b =~= seq![x] + c);
            lemma_hash_value_split(seq![x], c);
            lemma_hash_value_single(x);
            lemma_hash_value_zero(a);
            assert(hash_value(h) == x * p + hash_value(c) + hash_value(a) * pow2(
                (8 * (20 - full)) as nat,
            ));
            lemma_pow2_adds((8 * (19 - full)) as nat, (8 - rem) as nat);
            let t = pow2((8 - rem) as nat);
            assert(pow2(kappa) == p * t);
            assert(hash_value(a) * pow2((8 * (20 - full)) as nat) >= 0);
            assert(x * p + hash_value(c) >= p * t) by (nonlinear_arith)
                requires
                    x >= t,
                    hash_value(c) >= 0,
                    p >= 0,
            ;
            assert(hash_value(h) >= pow2(kappa));
        }
    }
}

/// The ends of the threshold range: every 20-byte digest lies below
/// `2^160`, so a threshold of 160 accepts any digest; and only the all-zero
/// digest lies below `2^0`.
pub proof fn lemma_hash_threshold_extremes(h: Seq<u8>)
    requires
        h.len() == 20,
    ensures
        hash_value(h) < pow2(160),
        (hash_value(h) < pow2(0)) <==> (forall|i: int| 0 <= i < 20 ==> h[i] == 0),
{
    lemma_hash_value_bound(h);
    lemma_hash_threshold(h, 0);
}

/// Whether the digest, read as a big-endian 160-bit integer, lies below
/// `2^kappa`: equivalently, whether its leading `160 - kappa` bits are all
/// zero. An input whose trace digest passes this predicate is a witness.
pub fn validate_hash(hash: &Vec<u8>, kappa: u64) -> (r: bool)
    requires
        hash@.len() == 20,
        kappa <= 160,
    ensures
        r == (hash_value(hash@) < pow2(kappa as nat)),
{
    proof {
        lemma_hash_threshold(hash@, kappa as nat);
        lemma2_to64();
    }
    let z: u64 = 160 - kappa;
    let full: u64 = z / 8;
    let rem: u64 = z % 8;
    let mut i: usize = 0;
    while i < full as usize
        invariant
            kappa <= 160,
            z == 160 - kappa,
            full == z / 8,
            rem == z % 8,
            full <= 20,
            i <= full,
            hash@.len() == 20,
            forall|j: int| 0 <= j < i ==> hash@[j] == 0,
        decreases full - i,
    {
        proof {
            lemma_hash_threshold(hash@, kappa as nat);
        }
        if hash[i] != 0 {
            proof {
                assert(!leading_zeros_ok(hash@, kappa as nat));
            }
            return false;
        }
        i += 1;
    }
    if rem > 0 {
        let top = hash[full as usize];
        let bound: u8 = if rem == 1 {
            128
        } else if rem == 2 {
            64
        } else if rem == 3 {
            32
        } else if rem == 4 {
            16
        } else if rem == 5 {
            8
        } else if rem == 6 {
            4
        } else {
            2
        };
        proof {
            assert(bound == pow2((8 - rem) as nat));
        }
        top < bound
    } else {
        true
    }
}

} // verus!
