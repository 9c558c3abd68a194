//! Relocation kinds and their bit-level encoding rules.
//!
//! A [`LabelUse`] names the shape of a relocatable immediate field: its usable
//! width in 2-byte instruction units and the non-contiguous positions its bits
//! occupy inside the 32-bit instruction word.  Patching a word clears exactly
//! those positions and scatters the immediate's bits into them; decoding
//! gathers them back and sign-extends.

use crate::imm::{in_signed_range, lemma_sign_extend_identity, sext_, sign_extend};
use crate::AsmError;
use vstd::arithmetic::div_mod::{
    lemma_div_multiples_vanish, lemma_fundamental_div_mod, lemma_mod_bound, lemma_mod_multiples_vanish,
    lemma_small_mod,
};
use vstd::arithmetic::power2::{lemma2_to64, lemma_pow2_pos, pow2};
use vstd::prelude::*;

verus! {

/// The shape of a relocatable immediate field inside an instruction word.
#[derive(Clone, Copy, Debug, PartialEq, Eq, Structural)]
pub enum LabelUse {
    /// J-type 20-bit immediate, in 2-byte units (e.g. `jal`).
    RVJal20,
    /// B-type 12-bit immediate, in 2-byte units (conditional branches).
    RVB12,
}

/// Scatters the low 20 bits of a unit offset into the J-type immediate
/// positions: offset bits 19, 9:0, 10, 18:11 land in word bits 31, 30:21,
/// 20, 19:12.
pub open spec fn encode_jal20(f: u32) -> u32 {
    (((f >> 19) & 1) << 31) | ((f & 0x3FF) << 21) | (((f >> 10) & 1) << 20) | (((f >> 11) & 0xFF)
        << 12)
}

/// Gathers the J-type immediate positions of a word back into the low 20
/// bits of a unit offset.
pub open spec fn decode_jal20(w: u32) -> u32 {
    (((w >> 31) & 1) << 19) | ((w >> 21) & 0x3FF) | (((w >> 20) & 1) << 10) | (((w >> 12) & 0xFF)
        << 11)
}

/// Scatters the low 12 bits of a unit offset into the B-type immediate
/// positions: offset bits 11, 9:4, 3:0, 10 land in word bits 31, 30:25,
/// 11:8, 7.
pub open spec fn encode_b12(f: u32) -> u32 {
    (((f >> 11) & 1) << 31) | (((f >> 4) & 0x3F) << 25) | ((f & 0xF) << 8) | (((f >> 10) & 1) << 7)
}

/// Gathers the B-type immediate positions of a word back into the low 12
/// bits of a unit offset.
pub open spec fn decode_b12(w: u32) -> u32 {
    (((w >> 31) & 1) << 11) | (((w >> 25) & 0x3F) << 4) | ((w >> 8) & 0xF) | (((w >> 7) & 1) << 10)
}

/// The low `b` bits of the unit offset `t`, as the field pattern to scatter.
pub open spec fn field_of(t: int, b: nat) -> u32
    recommends
        1 <= b <= 32,
{
    (t % (pow2(b) as int)) as u32
}

impl LabelUse {
    /// Usable immediate width, in bits; the offset it encodes is measured in
    /// 2-byte instruction units.
    pub open spec fn spec_width(self) -> nat {
        match self {
            LabelUse::RVJal20 => 20,
            LabelUse::RVB12 => 12,
        }
    }

    /// Usable immediate width, in bits.
    pub fn width(self) -> (w: u64)
        ensures
            w == self.spec_width(),
    {
        match self {
            LabelUse::RVJal20 => 20,
            LabelUse::RVB12 => 12,
        }
    }

    /// The word bits that do not belong to the immediate field and survive a
    /// patch unchanged.
    pub open spec fn spec_keep_mask(self) -> u32 {
        match self {
            LabelUse::RVJal20 => 0x0000_0FFF,
            LabelUse::RVB12 => 0x01FF_F07F,
        }
    }

    /// The field pattern for unit offset `t`, scattered into this kind's bit
    /// positions.
    pub open spec fn spec_encode_field(self, f: u32) -> u32 {
        match self {
            LabelUse::RVJal20 => encode_jal20(f),
            LabelUse::RVB12 => encode_b12(f),
        }
    }

    /// The field pattern gathered back out of a word.
    pub open spec fn spec_decode_field(self, w: u32) -> u32 {
        match self {
            LabelUse::RVJal20 => decode_jal20(w),
            LabelUse::RVB12 => decode_b12(w),
        }
    }

    /// The word `w` with its immediate field cleared and re-filled from the
    /// unit offset `t`.
    pub open spec fn spec_patched(self, w: u32, t: int) -> u32 {
        (w & self.spec_keep_mask()) | self.spec_encode_field(field_of(t, self.spec_width()))
    }

    /// The signed unit offset currently encoded in the word's immediate
    /// field.
    pub open spec fn spec_imm_units(self, w: u32) -> int {
        sign_extend(self.spec_decode_field(w) as int, self.spec_width())
    }
}

/// A label-relative byte delta `d` is encodable in kind `k`: it is 2-byte
/// aligned and its unit offset fits the kind's signed width.
pub open spec fn delta_ok(d: int, k: LabelUse) -> bool {
    d % 2 == 0 && in_signed_range(d / 2, k.spec_width())
}

/// The error reported for a byte delta that is not encodable: misalignment
/// is detected before overflow.
pub open spec fn delta_err(d: int, k: LabelUse) -> AsmError {
    if d % 2 != 0 {
        AsmError::Misaligned
    } else {
        AsmError::OutOfRange
    }
}

proof fn lemma_jal20_bits(w: u32, f: u32)
    by (bit_vector)
    requires
        f < 0x100000,
    ensures
        decode_jal20((w & 0x0000_0FFF) | encode_jal20(f)) == f,
{
}

proof fn lemma_b12_bits(w: u32, f: u32)
    by (bit_vector)
    requires
        f < 0x1000,
    ensures
        decode_b12((w & 0x01FF_F07F) | encode_b12(f)) == f,
{
}

proof fn lemma_patch_bits_idempotent(w: u32, e: u32, m: u32)
    by (bit_vector)
    ensures
        (((w & m) | e) & m) | e == (w & m) | e,
{
}

/// Patching a word is idempotent: clearing the immediate field of an
/// already-patched word and scattering the same offset again changes
/// nothing.
pub proof fn lemma_patched_idempotent(k: LabelUse, w: u32, t: int)
    ensures
        k.spec_patched(k.spec_patched(w, t), t) == k.spec_patched(w, t),
{
    let e = k.spec_encode_field(field_of(t, k.spec_width()));
    lemma_patch_bits_idempotent(w, e, k.spec_keep_mask());
}

/// Patching a word with an in-range unit offset and decoding the patched
/// word's immediate field recovers the offset exactly, whatever the word
/// held before.
pub proof fn lemma_patched_round_trip(k: LabelUse, w: u32, t: int)
    requires
        in_signed_range(t, k.spec_width()),
    ensures
        k.spec_imm_units(k.spec_patched(w, t)) == t,
{
    let b = k.spec_width();
    let m = pow2(b) as int;
    lemma2_to64();
    lemma_pow2_pos(b);
    lemma_mod_bound(t, m);
    let f = field_of(t, b);
    assert(f as int == t % m);
    match k {
        LabelUse::RVJal20 => lemma_jal20_bits(w, f),
        LabelUse::RVB12 => lemma_b12_bits(w, f),
    }
    assert(k.spec_decode_field(k.spec_patched(w, t)) == f);
    lemma_mod_bound(f as int, m);
    lemma_small_mod((t % m) as nat, pow2(b));
    assert(sign_extend(f as int, b) == sign_extend(t, b));
    lemma_sign_extend_identity(t, b);
}

/// Computes the field pattern for the byte delta whose magnitude is `mag`
/// and whose sign is `neg`, after checking alignment and range for kind `k`.
pub(crate) fn unit_field(neg: bool, mag: u64, k: LabelUse) -> (r: Result<u32, AsmError>)
    ensures
        ({
            let d = if neg {
                -(mag as int)
            } else {
                mag as int
            };
            match r {
                Ok(f) => delta_ok(d, k) && f == field_of(d / 2, k.spec_width()),
                Err(e) => !delta_ok(d, k) && e == delta_err(d, k),
            }
        }),
{
    let ghost d: int = if neg {
        -(mag as int)
    } else {
        mag as int
    };
    proof {
        lemma2_to64();
        lemma_fundamental_div_mod(mag as int, 2);
        if neg {
            // negating an integer keeps its parity
            lemma_mod_multiples_vanish(-((mag / 2) as int), 0, 2);
            lemma_mod_multiples_vanish(-((mag / 2) as int) - 1, 1, 2);
            lemma_small_mod(0, 2);
            lemma_small_mod(1, 2);
        }
    }
    if mag % 2 != 0 {
        return Err(AsmError::Misaligned);
    }
    let units: u64 = mag / 2;
    proof {
        if neg {
            lemma_div_multiples_vanish(-(units as int), 2);
        } else {
            lemma_div_multiples_vanish(units as int, 2);
        }
        assert(d / 2 == if neg {
            -(units as int)
        } else {
            units as int
        });
    }
    let (half, pw): (u64, u64) = match k {
        LabelUse::RVJal20 => (0x80000, 0x100000),
        LabelUse::RVB12 => (0x800, 0x1000),
    };
    proof {
        lemma_pow2_pos(k.spec_width());
        lemma_pow2_pos((k.spec_width() - 1) as nat);
        assert(half == pow2((k.spec_width() - 1) as nat));
        assert(pw == pow2(k.spec_width()));
    }
    if neg {
        if units > half {
            return Err(AsmError::OutOfRange);
        }
        if units == 0 {
            proof {
                lemma_small_mod(0, pow2(k.spec_width()));
            }
            Ok(0)
        } else {
            proof {
                lemma_mod_multiples_vanish(1, -(units as int), pw as int);
                lemma_small_mod((pw - units) as nat, pow2(k.spec_width()));
            }
            Ok((pw - units) as u32)
        }
    } else {
        if units >= half {
            return Err(AsmError::OutOfRange);
        }
        proof {
            lemma_small_mod(units as nat, pow2(k.spec_width()));
        }
        Ok(units as u32)
    }
}

/// Clears the immediate field of `w` and scatters the field pattern `f`
/// into kind `k`'s bit positions.
pub fn patched_word(k: LabelUse, w: u32, f: u32) -> (r: u32)
    ensures
        r == (w & k.spec_keep_mask()) | k.spec_encode_field(f),
{
    match k {
        LabelUse::RVJal20 => (w & 0x0000_0FFF) | ((((f >> 19) & 1) << 31) | ((f & 0x3FF) << 21) | (
        ((f >> 10) & 1) << 20) | (((f >> 11) & 0xFF) << 12)),
        LabelUse::RVB12 => (w & 0x01FF_F07F) | ((((f >> 11) & 1) << 31) | (((f >> 4) & 0x3F) << 25)
            | ((f & 0xF) << 8) | (((f >> 10) & 1) << 7)),
    }
}

/// Extracts and sign-extends the unit offset encoded in the word's
/// immediate field.
pub fn decode_imm_units(k: LabelUse, w: u32) -> (t: i64)
    ensures
        t == k.spec_imm_units(w),
{
    let f: u32 = match k {
        LabelUse::RVJal20 => (((w >> 31) & 1) << 19) | ((w >> 21) & 0x3FF) | (((w >> 20) & 1)
            << 10) | (((w >> 12) & 0xFF) << 11),
        LabelUse::RVB12 => (((w >> 31) & 1) << 11) | (((w >> 25) & 0x3F) << 4) | ((w >> 8) & 0xF)
            | (((w >> 7) & 1) << 10),
    };
    sext_(f as i64, k.width())
}

} // verus!
