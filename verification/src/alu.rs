//! The arithmetic of the integer instructions, on 64-bit words and on their low 32 bits.
use vstd::arithmetic::div_mod::{
    lemma_add_mod_noop, lemma_fundamental_div_mod, lemma_fundamental_div_mod_converse,
    lemma_sub_mod_noop,
};
use vstd::arithmetic::power2::{lemma2_to64, lemma_pow2_pos, lemma_pow2_strictly_increases, pow2};
use vstd::bits::{lemma_u64_pow2_no_overflow, lemma_u64_shl_is_mul, lemma_u64_shr_is_div};
use vstd::prelude::*;

use crate::word::{low32, sext, sext64, signed64, wrap64};

verus! {

/// `a` shifted left by `sh` bits: the product with 2^sh, wrapped to 64 bits.
pub open spec fn shl64(a: u64, sh: nat) -> u64 {
    wrap64(a * pow2(sh))
}

/// `a` shifted right by `sh` bits, filling with zeros.
pub open spec fn shr64(a: u64, sh: nat) -> u64 {
    (a as nat / pow2(sh)) as u64
}

/// `a` shifted right by `sh` bits, filling with copies of the sign bit: the signed value
/// divided by 2^sh, rounded down.
pub open spec fn sra64(a: u64, sh: nat) -> u64 {
    wrap64(signed64(a) / pow2(sh) as int)
}

/// The result of a 32-bit operation whose exact result is `x`: its low 32 bits,
/// sign-extended to 64.
pub open spec fn word32(x: int) -> u64 {
    sext64((x % 0x1_0000_0000) as nat, 32)
}

/// 1 for true and 0 for false.
pub open spec fn flag(b: bool) -> u64 {
    if b {
        1
    } else {
        0
    }
}

/// Rounding down a negative quotient: for `m >= 0` and `d > 0`, -(m+1)/d is -(m/d) - 1.
proof fn lemma_floor_div_negative(m: int, d: int)
    requires
        m >= 0,
        d > 0,
    ensures
        (-(m + 1)) / d == -(m / d) - 1,
{
    lemma_fundamental_div_mod(m, d);
    let q = m / d;
    let r = m % d;
    assert(-(m + 1) == (-q - 1) * d + (d - r - 1)) by (nonlinear_arith)
        requires
            m == d * q + r,
    ;
    lemma_fundamental_div_mod_converse(-(m + 1), d, -q - 1, d - r - 1);
}

/// The word `a + offset`, wrapping.
pub fn add_signed(base: u64, offset: i64) -> (r: u64)
    ensures
        r == wrap64(base + offset),
{
    base.wrapping_add_signed(offset)
}

/// The word whose two's-complement value is `a`.
pub fn to_word(a: i64) -> (r: u64)
    ensures
        r == wrap64(a as int),
{
    add_signed(0, a)
}

/// The two's-complement value of `a`.
pub fn to_signed(a: u64) -> (r: i64)
    ensures
        r == signed64(a),
{
    if a < 0x8000_0000_0000_0000 {
        a as i64
    } else {
        (a - 0x8000_0000_0000_0000) as i64 - 0x7fff_ffff_ffff_ffff - 1
    }
}

pub fn shift_left(a: u64, sh: u64) -> (r: u64)
    requires
        sh < 64,
    ensures
        r == shl64(a, sh as nat),
{
    proof {
        lemma_u64_pow2_no_overflow(sh as nat);
        lemma_u64_shl_is_mul(1, sh);
    }
    a.wrapping_mul(1u64 << sh)
}

pub fn shift_right(a: u64, sh: u64) -> (r: u64)
    requires
        sh < 64,
    ensures
        r == shr64(a, sh as nat),
{
    proof {
        lemma_u64_shr_is_div(a, sh);
    }
    a >> sh
}

pub fn shift_right_arith(a: u64, sh: u64) -> (r: u64)
    requires
        sh < 64,
    ensures
        r == sra64(a, sh as nat),
{
    proof {
        lemma_pow2_pos(sh as nat);
    }
    if a < 0x8000_0000_0000_0000 {
        proof {
            lemma_u64_shr_is_div(a, sh);
        }
        a >> sh
    } else {
        let m = u64::MAX - a;
        proof {
            lemma_u64_shr_is_div(m, sh);
            lemma_floor_div_negative(m as int, pow2(sh as nat) as int);
            assert(signed64(a) == -(m + 1));
            assert(m as nat / pow2(sh as nat) <= m) by {
                vstd::arithmetic::div_mod::lemma_div_is_ordered_by_denominator(
                    m as int,
                    1,
                    pow2(sh as nat) as int,
                );
            }
        }
        u64::MAX - (m >> sh)
    }
}

/// The low 32 bits of a word, sign-extended.
pub fn sign_extend_word(v: u64) -> (r: u64)
    requires
        v < 0x1_0000_0000,
    ensures
        r == sext64(v as nat, 32),
{
    proof {
        lemma2_to64();
    }
    if v >= 0x8000_0000 {
        v + 0xffff_ffff_0000_0000
    } else {
        v
    }
}

pub fn add_word32(a: u64, b: u64) -> (r: u64)
    ensures
        r == word32(a + b),
{
    proof {
        lemma_add_mod_noop(a as int, b as int, 0x1_0000_0000);
    }
    sign_extend_word(((a % 0x1_0000_0000) + (b % 0x1_0000_0000)) % 0x1_0000_0000)
}

pub fn sub_word32(a: u64, b: u64) -> (r: u64)
    ensures
        r == word32(a - b),
{
    proof {
        lemma_sub_mod_noop(a as int, b as int, 0x1_0000_0000);
        assert((a % 0x1_0000_0000 + 0x1_0000_0000 - b % 0x1_0000_0000) % 0x1_0000_0000 == (a
            % 0x1_0000_0000 - b % 0x1_0000_0000) % 0x1_0000_0000) by {
            vstd::arithmetic::div_mod::lemma_mod_add_multiples_vanish(
                (a % 0x1_0000_0000 - b % 0x1_0000_0000) as int,
                0x1_0000_0000,
            );
        }
    }
    sign_extend_word(((a % 0x1_0000_0000) + 0x1_0000_0000 - (b % 0x1_0000_0000)) % 0x1_0000_0000)
}

pub fn shift_left_word32(a: u64, sh: u64) -> (r: u64)
    requires
        sh < 32,
    ensures
        r == word32((low32(a) * pow2(sh as nat)) as int),
{
    let low = a % 0x1_0000_0000;
    proof {
        lemma2_to64();
        if sh < 31 {
            lemma_pow2_strictly_increases(sh as nat, 31);
        }
        lemma_u64_pow2_no_overflow(sh as nat);
        assert(low * pow2(sh as nat) <= 0xffff_ffff * 0x8000_0000) by (nonlinear_arith)
            requires
                low <= 0xffff_ffff,
                pow2(sh as nat) <= 0x8000_0000,
        ;
        lemma_u64_shl_is_mul(low, sh);
    }
    sign_extend_word((low << sh) % 0x1_0000_0000)
}

pub fn shift_right_word32(a: u64, sh: u64) -> (r: u64)
    requires
        sh < 32,
    ensures
        r == word32(low32(a) as int / pow2(sh as nat) as int),
{
    let low = a % 0x1_0000_0000;
    proof {
        lemma_u64_shr_is_div(low, sh);
        lemma_pow2_pos(sh as nat);
        vstd::arithmetic::div_mod::lemma_div_is_ordered_by_denominator(
            low as int,
            1,
            pow2(sh as nat) as int,
        );
    }
    sign_extend_word(low >> sh)
}

pub fn shift_right_arith_word32(a: u64, sh: u64) -> (r: u64)
    requires
        sh < 32,
    ensures
        r == wrap64(sext(low32(a), 32) / pow2(sh as nat) as int),
{
    let low = a % 0x1_0000_0000;
    proof {
        lemma2_to64();
        lemma_pow2_pos(sh as nat);
    }
    if low < 0x8000_0000 {
        proof {
            lemma_u64_shr_is_div(low, sh);
            vstd::arithmetic::div_mod::lemma_div_is_ordered_by_denominator(
                low as int,
                1,
                pow2(sh as nat) as int,
            );
        }
        low >> sh
    } else {
        let m = 0xffff_ffff - low;
        proof {
            lemma_u64_shr_is_div(m, sh);
            lemma_floor_div_negative(m as int, pow2(sh as nat) as int);
            assert(sext(low32(a), 32) == -(m + 1));
            vstd::arithmetic::div_mod::lemma_div_is_ordered_by_denominator(
                m as int,
                1,
                pow2(sh as nat) as int,
            );
        }
        u64::MAX - (m >> sh)
    }
}

} // verus!
