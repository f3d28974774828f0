//! Machine words as numbers: wrapping, two's complement and little-endian bytes.
use vstd::arithmetic::div_mod::*;
use vstd::arithmetic::power2::*;
use vstd::prelude::*;

verus! {

/// 2^64, the number of distinct 64-bit words.
pub open spec fn word_range() -> int {
    0x1_0000_0000_0000_0000
}

/// The 64-bit word that represents `x` modulo 2^64.
pub open spec fn wrap64(x: int) -> u64 {
    (x % word_range()) as u64
}

/// The value of a 64-bit word read as a two's-complement number.
pub open spec fn signed64(x: u64) -> int {
    if x < 0x8000_0000_0000_0000 {
        x as int
    } else {
        x - word_range()
    }
}

/// The value of the `n`-bit pattern `v` read as a two's-complement number.
pub open spec fn sext(v: nat, n: nat) -> int
    recommends
        0 < n,
        v < pow2(n),
{
    if v >= pow2((n - 1) as nat) {
        v - pow2(n)
    } else {
        v as int
    }
}

/// The 64-bit word whose value is the `n`-bit pattern `v` sign-extended.
pub open spec fn sext64(v: nat, n: nat) -> u64 {
    wrap64(sext(v, n))
}

/// The low 32 bits of a word.
pub open spec fn low32(x: u64) -> nat {
    x as nat % 0x1_0000_0000
}

/// The value of the bytes `s`, least significant first.
pub open spec fn le_value(s: Seq<u8>) -> nat
    decreases s.len(),
{
    if s.len() == 0 {
        0
    } else {
        s[0] as nat + 256 * le_value(s.drop_first())
    }
}

/// The `n` least significant bytes of `v`, least significant first.
pub open spec fn le_bytes(v: nat, n: nat) -> Seq<u8> {
    Seq::new(n, |i: int| ((v / pow2(8 * i as nat)) % 256) as u8)
}

/// `data` with `bytes` written over it from index `at` on.
pub open spec fn overwrite(data: Seq<u8>, at: int, bytes: Seq<u8>) -> Seq<u8> {
    Seq::new(
        data.len(),
        |k: int|
            if at <= k < at + bytes.len() {
                bytes[k - at]
            } else {
                data[k]
            },
    )
}

pub proof fn lemma_pow2_bytes(n: nat)
    ensures
        pow2(8 * (n + 1)) == 256 * pow2(8 * n),
        pow2(8 * n) > 0,
{
    lemma_pow2_adds(8 * n, 8);
    lemma2_to64();
    lemma_pow2_pos(8 * n);
    assert(8 * (n + 1) == 8 * n + 8) by (nonlinear_arith);
}

/// The value of `n` bytes is below 2^(8n).
pub proof fn lemma_le_value_bound(s: Seq<u8>)
    ensures
        le_value(s) < pow2(8 * s.len()),
    decreases s.len(),
{
    if s.len() == 0 {
        lemma2_to64();
    } else {
        lemma_le_value_bound(s.drop_first());
        lemma_pow2_bytes((s.len() - 1) as nat);
        assert(8 * ((s.len() - 1) as nat + 1) == 8 * s.len());
    }
}

/// Reading back the bytes of `v` gives `v` reduced to `n` bytes.
pub proof fn lemma_le_value_of_bytes(v: nat, n: nat)
    ensures
        le_value(le_bytes(v, n)) == v % pow2(8 * n),
    decreases n,
{
    lemma2_to64();
    if n == 0 {
        assert(v % 1 == 0);
    } else {
        let s = le_bytes(v, n);
        let rest = le_bytes(v / 256, (n - 1) as nat);
        assert forall|i: int| 0 <= i < n - 1 implies s.drop_first()[i] == rest[i] by {
            lemma_pow2_bytes(i as nat);
            lemma_pow2_pos(8 * i as nat);
            lemma_div_denominator(v as int, 256, pow2(8 * i as nat) as int);
            assert(8 * (i + 1) as nat == 8 * (i as nat + 1));
        }
        assert(s.drop_first() =~= rest);
        assert(s[0] as nat == v % 256) by {
            assert(v / pow2(0) == v);
        }
        lemma_le_value_of_bytes(v / 256, (n - 1) as nat);
        lemma_pow2_bytes((n - 1) as nat);
        lemma_pow2_pos(8 * (n - 1) as nat);
        lemma_mod_breakdown(v as int, 256, pow2(8 * (n - 1) as nat) as int);
        assert(8 * ((n - 1) as nat + 1) == 8 * n);
    }
}

} // verus!
