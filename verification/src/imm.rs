//! Two's-complement range utilities.
//!
//! Pure helpers over signed immediates of a given bit width: deciding whether
//! a value fits in `b` bits, and recovering the signed value stored in the low
//! `b` bits of a wider integer.

use vstd::arithmetic::div_mod::{lemma_mod_bound, lemma_mod_multiples_vanish, lemma_small_mod};
use vstd::arithmetic::power2::{
    lemma2_to64, lemma2_to64_rest, lemma_pow2_adds, lemma_pow2_pos, lemma_pow2_unfold, pow2,
};
use vstd::bits::{
    lemma_u64_low_bits_mask_is_mod, lemma_u64_pow2_no_overflow, lemma_u64_shl_is_mul,
    low_bits_mask,
};
use vstd::prelude::*;

verus! {

/// `v` fits in `b` bits as a two's-complement signed value,
/// that is `-2^(b-1) <= v < 2^(b-1)`.
pub open spec fn in_signed_range(v: int, b: nat) -> bool
    recommends
        1 <= b,
{
    -pow2((b - 1) as nat) <= v < pow2((b - 1) as nat)
}

/// The signed value whose two's-complement representation equals the low `b`
/// bits of `v`.
pub open spec fn sign_extend(v: int, b: nat) -> int
    recommends
        1 <= b,
{
    let low = v % (pow2(b) as int);
    if low >= pow2((b - 1) as nat) {
        low - pow2(b)
    } else {
        low
    }
}

/// Sign extension always lands in the `b`-bit signed range.
pub proof fn lemma_sign_extend_in_range(v: int, b: nat)
    requires
        1 <= b,
    ensures
        in_signed_range(sign_extend(v, b), b),
{
    lemma_pow2_pos(b);
    lemma_pow2_pos((b - 1) as nat);
    lemma_pow2_unfold(b);
    lemma_mod_bound(v, pow2(b) as int);
}

/// Extracting the low `b` bits of an in-range value and sign-extending them
/// back yields the value itself.
pub proof fn lemma_sign_extend_identity(v: int, b: nat)
    requires
        1 <= b,
        in_signed_range(v, b),
    ensures
        sign_extend(v, b) == v,
{
    let m = pow2(b) as int;
    lemma_pow2_pos(b);
    lemma_pow2_pos((b - 1) as nat);
    lemma_pow2_unfold(b);
    if v >= 0 {
        lemma_small_mod(v as nat, pow2(b));
    } else {
        lemma_mod_multiples_vanish(1, v, m);
        lemma_small_mod((v + m) as nat, pow2(b));
    }
}

/// Recovers the signed value stored in the low `b` bits of `val`.
pub fn sext_(val: i64, b: u64) -> (r: i64)
    requires
        1 <= b <= 64,
    ensures
        r == sign_extend(val as int, b as nat),
{
    proof {
        lemma2_to64();
        lemma2_to64_rest();
    }
    if b == 64 {
        proof {
            if val >= 0 {
                lemma_small_mod(val as nat, pow2(64));
            } else {
                lemma_mod_multiples_vanish(1, val as int, pow2(64) as int);
                lemma_small_mod((val + pow2(64)) as nat, pow2(64));
            }
        }
        return val;
    }
    let uval: u64 = #[verifier::truncate] (val as u64);
    proof {
        lemma_u64_pow2_no_overflow(b as nat);
        lemma_u64_pow2_no_overflow((b - 1) as nat);
        lemma_u64_shl_is_mul(1u64, b);
        lemma_u64_shl_is_mul(1u64, (b - 1) as u64);
        lemma_pow2_pos(b as nat);
        lemma_pow2_pos((b - 1) as nat);
    }
    let mask: u64 = (1u64 << b) - 1;
    let low: u64 = uval & mask;
    let sign: u64 = 1u64 << (b - 1);
    proof {
        assert(mask == low_bits_mask(b as nat));
        lemma_u64_low_bits_mask_is_mod(uval, b as nat);
        lemma_pow2_unfold(b as nat);
        assert(val >= 0 ==> val as u64 == val) by (bit_vector);
        assert(val < 0 ==> val as u64 == val + 0x1_0000_0000_0000_0000) by (bit_vector);
        if val < 0 {
            lemma_pow2_adds(b as nat, (64 - b) as nat);
            lemma_mod_multiples_vanish(pow2((64 - b) as nat) as int, val as int, pow2(
                b as nat,
            ) as int);
        } else {
            lemma_small_mod(val as nat, pow2(64));
        }
        assert(low == (val as int) % (pow2(b as nat) as int));
    }
    if low >= sign {
        (low as i64) - (sign as i64) - (sign as i64)
    } else {
        low as i64
    }
}

/// Recovers the signed value stored in the low `B` bits of `val`.
pub fn sext<const B: u64>(val: i64) -> (r: i64)
    requires
        1 <= B <= 64,
    ensures
        r == sign_extend(val as int, B as nat),
{
    sext_(val, B)
}

/// Decides whether `val` fits in `b` bits as a signed value: the check
/// accepts `val` exactly when `-2^(b-1) <= val < 2^(b-1)`.
pub fn fits_signed(val: i64, b: u64) -> (r: bool)
    requires
        1 <= b <= 64,
    ensures
        r == in_signed_range(val as int, b as nat),
{
    let s = sext_(val, b);
    proof {
        lemma_sign_extend_in_range(val as int, b as nat);
        if in_signed_range(val as int, b as nat) {
            lemma_sign_extend_identity(val as int, b as nat);
        }
    }
    s == val
}

} // verus!
