//! Word arithmetic and the hash threshold predicate on concrete values.

use ckc::hash::validate_hash;
use ckc::words::{
    mask_for, msb_for, signed_le, signed_lt, word_add, word_mul, word_shl, word_shr, word_sub,
    word_udiv, word_umod, wrap_exec,
};

#[test]
fn masks_and_msbs() {
    assert_eq!(mask_for(8), 0xff);
    assert_eq!(mask_for(16), 0xffff);
    assert_eq!(mask_for(32), 0xffff_ffff);
    assert_eq!(mask_for(64), u64::MAX);
    assert_eq!(msb_for(8), 0x80);
    assert_eq!(msb_for(64), 0x8000_0000_0000_0000);
}

#[test]
fn word_arithmetic() {
    // addition wraps at the word size
    assert_eq!(word_add(0xffff_ffff, 1, 32), 0);
    assert_eq!(word_add(200, 100, 8), 44);
    assert_eq!(word_add(u64::MAX, u64::MAX, 64), u64::MAX - 1);
    // subtraction is two's-complement
    assert_eq!(word_sub(0, 1, 32), 0xffff_ffff);
    assert_eq!(word_sub(5, 3, 8), 2);
    // multiplication keeps the low word and reports overflow
    assert_eq!(word_mul(16, 16, 8), (0, true));
    assert_eq!(word_mul(3, 7, 8), (21, false));
    // division and remainder are total: a zero divisor yields zero
    assert_eq!(word_udiv(10, 3, 32), 3);
    assert_eq!(word_udiv(10, 0, 32), 0);
    assert_eq!(word_umod(10, 3, 32), 1);
    assert_eq!(word_umod(10, 0, 32), 0);
    // shifts
    assert_eq!(word_shl(1, 7, 8), 0x80);
    assert_eq!(word_shl(1, 8, 8), 0);
    assert_eq!(word_shl(1, 200, 64), 0);
    assert_eq!(word_shr(0x80, 7, 8), 1);
    assert_eq!(word_shr(0x80, 200, 8), 0);
    // reduction into the word
    assert_eq!(wrap_exec(0x1ff, 8), 0xff);
}

#[test]
fn signed_comparisons() {
    // 0xff is -1 as an 8-bit word: below zero, above neither
    assert!(signed_lt(0xff, 0, 8));
    assert!(!signed_lt(0, 0xff, 8));
    assert!(signed_le(0xff, 0xff, 8));
    // 0x7f is the largest positive 8-bit word
    assert!(signed_lt(0x80, 0x7f, 8));
    assert!(signed_lt(3, 5, 8));
}

#[test]
fn hash_threshold_predicate() {
    let zero = vec![0u8; 20];
    let mut one = vec![0u8; 20];
    one[19] = 1;
    let mut top = vec![0u8; 20];
    top[0] = 0x80;

    // kappa = 160 accepts any digest
    assert!(validate_hash(&zero, 160));
    assert!(validate_hash(&one, 160));
    assert!(validate_hash(&top, 160));
    // kappa = 0 accepts only the all-zero digest
    assert!(validate_hash(&zero, 0));
    assert!(!validate_hash(&one, 0));
    assert!(!validate_hash(&top, 0));
    // the digest as a big-endian integer must lie below 2^kappa
    assert!(validate_hash(&one, 1));
    assert!(!validate_hash(&top, 159));
    assert!(validate_hash(&top, 160));

    // bit-level boundary inside a byte: value 2^12 needs kappa = 13
    let mut h = vec![0u8; 20];
    h[18] = 0x10;
    assert!(!validate_hash(&h, 12));
    assert!(validate_hash(&h, 13));
}
