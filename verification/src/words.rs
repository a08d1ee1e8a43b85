//! Bit-exact arithmetic on machine words of a configurable width `W`.
//!
//! Register values are stored in `u64` and kept below `2^W`. Every operation
//! reduces its result modulo `2^W`; the specifications state the results as
//! plain modular arithmetic over the integers.

use vstd::prelude::*;
use vstd::arithmetic::power2::*;
use vstd::arithmetic::div_mod::*;
use vstd::bits::*;

verus! {

/// The word sizes the machine supports: divisible by 8, a power of two,
/// and at most 64 bits.
pub open spec fn valid_word_size(w: u16) -> bool {
    w == 8 || w == 16 || w == 32 || w == 64
}

/// The largest value a `W`-bit word can hold, `2^W - 1`.
pub open spec fn word_mask(w: u16) -> u64
    recommends
        valid_word_size(w),
{
    (pow2(w as nat) - 1) as u64
}

/// `x` reduced into the `W`-bit word range.
pub open spec fn wrap(x: int, w: u16) -> u64
    recommends
        valid_word_size(w),
{
    (x % (pow2(w as nat) as int)) as u64
}

/// The four masks, as concrete values.
pub proof fn lemma_word_mask_values(w: u16)
    requires
        valid_word_size(w),
    ensures
        w == 8 ==> word_mask(w) == 0xff,
        w == 16 ==> word_mask(w) == 0xffff,
        w == 32 ==> word_mask(w) == 0xffff_ffff,
        w == 64 ==> word_mask(w) == 0xffff_ffff_ffff_ffff,
        pow2(w as nat) == word_mask(w) + 1,
{
    lemma2_to64();
    lemma2_to64_rest();
}

/// A wrapped value fits in a word.
pub proof fn lemma_wrap_bound(x: int, w: u16)
    requires
        valid_word_size(w),
    ensures
        wrap(x, w) <= word_mask(w),
        0 <= x < pow2(w as nat) ==> wrap(x, w) == x,
{
    lemma_word_mask_values(w);
    lemma_pow2_pos(w as nat);
    lemma_mod_bound(x, pow2(w as nat) as int);
    if 0 <= x < pow2(w as nat) {
        lemma_small_mod(x as nat, pow2(w as nat));
    }
}

/// Bitwise combinations of two word-sized values stay word-sized.
pub proof fn lemma_bitop_bounds(a: u64, b: u64, m: u64)
    requires
        a <= m,
        b <= m,
        m == 0xff || m == 0xffff || m == 0xffff_ffff || m == 0xffff_ffff_ffff_ffff,
    ensures
        (a & b) <= m,
        (a | b) <= m,
        (a ^ b) <= m,
{
    assert((a & b) <= m && (a | b) <= m && (a ^ b) <= m) by (bit_vector)
        requires
            a <= m,
            b <= m,
            m == 0xff || m == 0xffff || m == 0xffff_ffff || m == 0xffff_ffff_ffff_ffff,
    ;
}

/// The mask for a valid word size.
pub fn mask_for(w: u16) -> (m: u64)
    requires
        valid_word_size(w),
    ensures
        m == word_mask(w),
{
    proof {
        lemma_word_mask_values(w);
    }
    if w == 8 {
        0xff
    } else if w == 16 {
        0xffff
    } else if w == 32 {
        0xffff_ffff
    } else {
        0xffff_ffff_ffff_ffff
    }
}

/// The most-significant-bit value of a `W`-bit word, `2^(W-1)`.
pub open spec fn msb_value(w: u16) -> u64
    recommends
        valid_word_size(w),
{
    pow2((w - 1) as nat) as u64
}

/// The four most-significant-bit values, as concrete values.
pub proof fn lemma_msb_values(w: u16)
    requires
        valid_word_size(w),
    ensures
        w == 8 ==> msb_value(w) == 0x80,
        w == 16 ==> msb_value(w) == 0x8000,
        w == 32 ==> msb_value(w) == 0x8000_0000,
        w == 64 ==> msb_value(w) == 0x8000_0000_0000_0000,
        msb_value(w) * 2 == pow2(w as nat),
{
    lemma2_to64();
    lemma2_to64_rest();
    lemma_pow2_unfold(w as nat);
}

/// The most-significant-bit value for a valid word size.
pub fn msb_for(w: u16) -> (m: u64)
    requires
        valid_word_size(w),
    ensures
        m == msb_value(w),
{
    proof {
        lemma_msb_values(w);
    }
    if w == 8 {
        0x80
    } else if w == 16 {
        0x8000
    } else if w == 32 {
        0x8000_0000
    } else {
        0x8000_0000_0000_0000
    }
}

/// Whether the top bit of the `W`-bit word `r` is set. For `r < 2^W` this is
/// exactly the test `(r & 2^(W-1)) != 0`.
pub open spec fn msb_set(r: u64, w: u16) -> bool
    recommends
        valid_word_size(w),
        r <= word_mask(w),
{
    r >= msb_value(w)
}

/// `x` reduced to the word range, executable.
pub fn wrap_exec(x: u64, w: u16) -> (r: u64)
    requires
        valid_word_size(w),
    ensures
        r == wrap(x as int, w),
        r <= word_mask(w),
{
    proof {
        lemma_word_mask_values(w);
        lemma_wrap_bound(x as int, w);
        lemma_pow2_pos(w as nat);
    }
    if w == 64 {
        proof {
            lemma_small_mod(x as nat, pow2(64));
        }
        x
    } else {
        let m: u64 = mask_for(w);
        x % (m + 1)
    }
}

/// Word addition: `(a + b) mod 2^W`, with unbounded operands.
pub fn word_add(a: u64, b: u64, w: u16) -> (r: u64)
    requires
        valid_word_size(w),
    ensures
        r == wrap(a + b, w),
        r <= word_mask(w),
{
    proof {
        lemma_word_mask_values(w);
        lemma_wrap_bound(a + b, w);
        lemma_pow2_pos(w as nat);
    }
    let m: u128 = (mask_for(w) as u128) + 1;
    let s: u128 = (a as u128) + (b as u128);
    (s % m) as u64
}

/// Word subtraction: `(a - b) mod 2^W`, with unbounded operands.
pub fn word_sub(a: u64, b: u64, w: u16) -> (r: u64)
    requires
        valid_word_size(w),
    ensures
        r == wrap(a - b, w),
        r <= word_mask(w),
{
    proof {
        lemma_word_mask_values(w);
        lemma_wrap_bound(a - b, w);
        lemma_pow2_pos(w as nat);
    }
    let m: u128 = (mask_for(w) as u128) + 1;
    let bm: u128 = (b as u128) % m;
    let s: u128 = (a as u128) + m - bm;
    let r: u64 = (s % m) as u64;
    proof {
        let mi = m as int;
        lemma_mod_bound(b as int, mi);
        // (m + (a - b % m)) % m == (a - b % m) % m == (a - b) % m
        lemma_mod_add_multiples_vanish(a - (b as int % mi), mi);
        lemma_sub_mod_noop_right(a as int, b as int, mi);
    }
    r
}

/// Word multiplication: `(a * b) mod 2^W`; also reports whether the full
/// product exceeded the word range (the `mull` overflow flag).
pub fn word_mul(a: u64, b: u64, w: u16) -> (res: (u64, bool))
    requires
        valid_word_size(w),
    ensures
        res.0 == wrap(a * b, w),
        res.0 <= word_mask(w),
        res.1 == (a * b > word_mask(w)),
{
    proof {
        lemma_word_mask_values(w);
        lemma_wrap_bound(a * b, w);
        lemma_pow2_pos(w as nat);
    }
    proof {
        vstd::arithmetic::mul::lemma_mul_upper_bound(
            a as int,
            u64::MAX as int,
            b as int,
            u64::MAX as int,
        );
    }
    let m: u128 = (mask_for(w) as u128) + 1;
    let p: u128 = (a as u128) * (b as u128);
    let over: bool = p > m - 1;
    ((p % m) as u64, over)
}

/// Word division: `a / b`, or `0` when `b == 0`.
pub fn word_udiv(a: u64, b: u64, w: u16) -> (r: u64)
    requires
        valid_word_size(w),
    ensures
        b == 0 ==> r == 0,
        b != 0 ==> r == wrap(a as int / b as int, w),
        r <= word_mask(w),
{
    proof {
        lemma_word_mask_values(w);
    }
    if b == 0 {
        0
    } else {
        wrap_exec(a / b, w)
    }
}

/// Word remainder: `a % b`, or `0` when `b == 0`.
pub fn word_umod(a: u64, b: u64, w: u16) -> (r: u64)
    requires
        valid_word_size(w),
    ensures
        b == 0 ==> r == 0,
        b != 0 ==> r == wrap(a as int % b as int, w),
        r <= word_mask(w),
{
    proof {
        lemma_word_mask_values(w);
    }
    if b == 0 {
        0
    } else {
        wrap_exec(a % b, w)
    }
}

/// Word left shift: `(a * 2^s) mod 2^W`; a shift of `W` or more clears the word.
pub fn word_shl(a: u64, s: u64, w: u16) -> (r: u64)
    requires
        valid_word_size(w),
    ensures
        r == wrap(a * pow2(s as nat), w),
        r <= word_mask(w),
{
    proof {
        lemma_word_mask_values(w);
        lemma_wrap_bound(a * pow2(s as nat), w);
        lemma_pow2_pos(w as nat);
        lemma_pow2_pos(s as nat);
    }
    let m: u128 = (mask_for(w) as u128) + 1;
    if s >= 64 {
        proof {
            // 2^W divides 2^s, so a * 2^s is a multiple of 2^W.
            broadcast use vstd::arithmetic::mul::group_mul_properties;

            lemma_pow2_adds((s - w) as nat, w as nat);
            let q = pow2((s - w) as nat) as int;
            assert(a * pow2(s as nat) == (a * q) * (pow2(w as nat) as int));
            lemma_mod_multiples_basic(a as int * q, pow2(w as nat) as int);
        }
        0u64
    } else {
        proof {
            lemma_u64_pow2_no_overflow(s as nat);
            lemma_u64_shl_is_mul(1u64, s);
        }
        let p: u128 = (1u64 << s) as u128;
        proof {
            vstd::arithmetic::mul::lemma_mul_upper_bound(
                a as int,
                u64::MAX as int,
                p as int,
                u64::MAX as int,
            );
        }
        let prod: u128 = (a as u128) * p;
        (prod % m) as u64
    }
}

/// Word right shift: `a / 2^s`.
pub fn word_shr(a: u64, s: u64, w: u16) -> (r: u64)
    requires
        valid_word_size(w),
        a <= word_mask(w),
    ensures
        r == a as nat / pow2(s as nat),
        r <= word_mask(w),
{
    if s >= 64 {
        proof {
            lemma_word_mask_values(w);
            lemma2_to64_rest();
            if s as nat > 64 {
                lemma_pow2_strictly_increases(64, s as nat);
            }
            lemma_pow2_pos(s as nat);
            assert((a as nat) < pow2(s as nat));
            lemma_basic_div(a as int, pow2(s as nat) as int);
        }
        0u64
    } else {
        proof {
            lemma_word_mask_values(w);
            lemma_u64_shr_is_div(a, s);
            lemma_pow2_pos(s as nat);
            lemma_div_nonincreasing(a as int, pow2(s as nat) as int);
            lemma_div_pos_is_pos(a as int, pow2(s as nat) as int);
        }
        a >> s
    }
}

/// The signed value of the `W`-bit word `x`, by two's-complement
/// reinterpretation of its low `W` bits.
pub open spec fn to_signed(x: u64, w: u16) -> int
    recommends
        valid_word_size(w),
{
    let v = (x as int) % (pow2(w as nat) as int);
    if v >= pow2((w - 1) as nat) {
        v - pow2(w as nat)
    } else {
        v
    }
}

/// Signed strictly-less-than on `W`-bit words.
pub fn signed_lt(x: u64, y: u64, w: u16) -> (r: bool)
    requires
        valid_word_size(w),
    ensures
        r == (to_signed(x, w) < to_signed(y, w)),
{
    proof {
        lemma_word_mask_values(w);
        lemma_msb_values(w);
        lemma_wrap_bound(x as int, w);
        lemma_wrap_bound(y as int, w);
    }
    let xm: u64 = wrap_exec(x, w);
    let ym: u64 = wrap_exec(y, w);
    let msb: u64 = msb_for(w);
    let xneg: bool = xm >= msb;
    let yneg: bool = ym >= msb;
    proof {
        let p = pow2(w as nat) as int;
        lemma2_to64();
        lemma2_to64_rest();
        lemma_pow2_pos(w as nat);
        lemma_mod_bound(x as int, p);
        lemma_mod_bound(y as int, p);
        assert(xm == (x as int) % p);
        assert(ym == (y as int) % p);
        assert((msb as int) * 2 == p);
        let sx = to_signed(x, w);
        let sy = to_signed(y, w);
        assert(sx == if xneg {
            xm - p
        } else {
            xm as int
        });
        assert(sy == if yneg {
            ym - p
        } else {
            ym as int
        });
        assert((sx < sy) == if xneg == yneg {
            xm < ym
        } else {
            xneg
        });
    }
    if xneg == yneg {
        xm < ym
    } else {
        xneg
    }
}

/// Signed less-or-equal on `W`-bit words.
pub fn signed_le(x: u64, y: u64, w: u16) -> (r: bool)
    requires
        valid_word_size(w),
    ensures
        r == (to_signed(x, w) <= to_signed(y, w)),
{
    !signed_lt(y, x, w)
}

} // verus!
