//! Little-endian and big-endian integer interpretations of byte strings and
//! limb vectors, with the lemmas the field and scalar layers need.

use vstd::prelude::*;
use vstd::arithmetic::power2::{pow2, lemma_pow2_adds, lemma_pow2_pos, lemma2_to64, lemma2_to64_rest};
use vstd::arithmetic::div_mod::{
    lemma_div_denominator, lemma_hoist_over_denominator, lemma_mod_multiples_vanish,
    lemma_basic_div, lemma_small_mod,
};

verus! {

/// Value of a byte string read little-endian, radix 256.
pub open spec fn le_val(s: Seq<u8>) -> int
    decreases s.len(),
{
    if s.len() == 0 {
        0
    } else {
        s[0] + 0x100 * le_val(s.skip(1))
    }
}

/// Value of a byte string read big-endian (most significant byte first).
pub open spec fn be_val(s: Seq<u8>) -> int
    decreases s.len(),
{
    if s.len() == 0 {
        0
    } else {
        0x100 * be_val(s.drop_last()) + s.last()
    }
}

/// Value of a vector of 64-bit limbs, least significant limb first.
pub open spec fn val64(s: Seq<u64>) -> int
    decreases s.len(),
{
    if s.len() == 0 {
        0
    } else {
        s[0] + 0x10000000000000000 * val64(s.skip(1))
    }
}

/// Value of a vector of radix-2^56 limbs, least significant limb first.
pub open spec fn val56(s: Seq<u64>) -> int
    decreases s.len(),
{
    if s.len() == 0 {
        0
    } else {
        s[0] + 0x100000000000000 * val56(s.skip(1))
    }
}

pub proof fn lemma_le_val_nonneg(s: Seq<u8>)
    ensures
        0 <= le_val(s),
    decreases s.len(),
{
    if s.len() > 0 {
        lemma_le_val_nonneg(s.skip(1));
    }
}

pub proof fn lemma_val64_nonneg(s: Seq<u64>)
    ensures
        0 <= val64(s),
    decreases s.len(),
{
    if s.len() > 0 {
        lemma_val64_nonneg(s.skip(1));
    }
}

pub proof fn lemma_val56_nonneg(s: Seq<u64>)
    ensures
        0 <= val56(s),
    decreases s.len(),
{
    if s.len() > 0 {
        lemma_val56_nonneg(s.skip(1));
    }
}

/// Splitting a byte string at `k` splits its value at the weight `2^(8k)`.
pub proof fn lemma_le_val_split(s: Seq<u8>, k: nat)
    requires
        k <= s.len(),
    ensures
        le_val(s) == le_val(s.take(k as int)) + pow2(8 * k) * le_val(s.skip(k as int)),
    decreases k,
{
    if k == 0 {
        assert(s.take(0).len() == 0);
        assert(s.skip(0) =~= s);
        assert(pow2(0) == 1) by {
            lemma2_to64();
        }
        assert(le_val(s.take(0)) == 0);
        assert(pow2(0) * le_val(s.skip(0)) == le_val(s));
        assert(le_val(s) == le_val(s.take(k as int)) + pow2(8 * k) * le_val(s.skip(k as int)));
    } else {
        let s1 = s.skip(1);
        lemma_le_val_split(s1, (k - 1) as nat);
        assert(s1.take(k - 1) =~= s.take(k as int).skip(1));
        assert(s1.skip(k - 1) =~= s.skip(k as int));
        lemma_pow2_adds(8, 8 * (k - 1) as nat);
        assert(8 * k == 8 + 8 * (k - 1) as nat);
        let a = le_val(s.take(k as int).skip(1));
        let b = le_val(s.skip(k as int));
        let w = pow2(8 * (k - 1) as nat);
        assert(le_val(s1) == a + w * b);
        assert(le_val(s) == s[0] + 0x100 * (a + w * b));
        assert(0x100 * (a + w * b) == 0x100 * a + 0x100 * (w * b)) by (nonlinear_arith);
        assert(0x100 * (w * b) == (0x100 * w) * b) by (nonlinear_arith);
        assert(s.take(k as int)[0] == s[0]);
        assert(le_val(s.take(k as int)) == s[0] + 0x100 * a);
        assert(pow2(8 * k) == 0x100 * w) by {
            assert(pow2(8) == 0x100) by {
                lemma2_to64();
            }
            assert(8 * k == 8 + 8 * ((k - 1) as nat));
            assert(pow2((8 + 8 * ((k - 1) as nat)) as nat) == pow2(8) * pow2(8 * ((k - 1) as nat)));
        }
        assert(pow2(8 * k) * b == (0x100 * w) * b);
        assert(le_val(s) == le_val(s.take(k as int)) + pow2(8 * k) * le_val(s.skip(k as int)));
    }
}

/// A string of zero bytes has value zero.
pub proof fn lemma_le_val_zero(s: Seq<u8>)
    requires
        forall|i: int| 0 <= i < s.len() ==> s[i] == 0,
    ensures
        le_val(s) == 0,
    decreases s.len(),
{
    if s.len() > 0 {
        lemma_le_val_zero(s.skip(1));
    }
}

/// The low bit of a byte string's value is the low bit of its first byte.
pub proof fn lemma_le_val_parity(s: Seq<u8>)
    requires
        s.len() > 0,
    ensures
        le_val(s) % 2 == s[0] % 2,
{
    let r = le_val(s.skip(1));
    assert(le_val(s) == s[0] + 0x100 * r);
    assert(s[0] + 0x100 * r == 2 * (0x80 * r) + s[0]) by (nonlinear_arith);
    lemma_mod_multiples_vanish(0x80 * r, s[0] as int, 2);
}

/// Byte strings of equal length and equal value are equal.
pub proof fn lemma_le_val_injective(s: Seq<u8>, t: Seq<u8>)
    requires
        s.len() == t.len(),
        le_val(s) == le_val(t),
    ensures
        s =~= t,
    decreases s.len(),
{
    if s.len() > 0 {
        let rs = le_val(s.skip(1));
        let rt = le_val(t.skip(1));
        lemma_le_val_nonneg(s.skip(1));
        lemma_le_val_nonneg(t.skip(1));
        assert(s[0] + 0x100 * rs == t[0] + 0x100 * rt);
        assert(le_val(s) % 0x100 == s[0]) by {
            assert(s[0] + 0x100 * rs == 0x100 * rs + s[0]);
            lemma_mod_multiples_vanish(rs, s[0] as int, 0x100);
            lemma_small_mod(s[0] as nat, 0x100);
        }
        assert(le_val(t) % 0x100 == t[0]) by {
            assert(t[0] + 0x100 * rt == 0x100 * rt + t[0]);
            lemma_mod_multiples_vanish(rt, t[0] as int, 0x100);
            lemma_small_mod(t[0] as nat, 0x100);
        }
        assert(s[0] == t[0]);
        assert(rs == rt);
        lemma_le_val_injective(s.skip(1), t.skip(1));
        assert(forall|i: int| 0 <= i < s.len() ==> s[i] == t[i]) by {
            assert(forall|i: int|
                1 <= i < s.len() ==> s[i] == s.skip(1)[i - 1] && t[i] == t.skip(1)[i - 1]);
        }
    }
}

/// A seven-byte string's value, written out.
pub proof fn lemma_le_val_len7(s: Seq<u8>)
    requires
        s.len() == 7,
    ensures
        le_val(s) == s[0] + s[1] * 0x100 + s[2] * 0x10000 + s[3] * 0x1000000 + s[4] * 0x100000000
            + s[5] * 0x10000000000 + s[6] * 0x1000000000000,
{
    reveal_with_fuel(le_val, 8);
    assert(s.skip(1).skip(1) =~= s.skip(2));
    assert(s.skip(2).skip(1) =~= s.skip(3));
    assert(s.skip(3).skip(1) =~= s.skip(4));
    assert(s.skip(4).skip(1) =~= s.skip(5));
    assert(s.skip(5).skip(1) =~= s.skip(6));
    assert(s.skip(6).skip(1) =~= s.skip(7));
    assert(s.skip(7).len() == 0);
}

/// An eight-limb radix-2^56 vector's value, written out.
pub proof fn lemma_val56_len8(s: Seq<u64>)
    requires
        s.len() == 8,
    ensures
        val56(s) == s[0] + s[1] * 0x100000000000000 + s[2] * 0x10000000000000000000000000000
            + s[3] * 0x1000000000000000000000000000000000000000000
            + s[4] * 0x100000000000000000000000000000000000000000000000000000000
            + s[5] * 0x10000000000000000000000000000000000000000000000000000000000000000000000
            + s[6] * 0x1000000000000000000000000000000000000000000000000000000000000000000000000000000000000
            + s[7] * 0x100000000000000000000000000000000000000000000000000000000000000000000000000000000000000000000000000,
{
    reveal_with_fuel(val56, 9);
    assert(s.skip(1).skip(1) =~= s.skip(2));
    assert(s.skip(2).skip(1) =~= s.skip(3));
    assert(s.skip(3).skip(1) =~= s.skip(4));
    assert(s.skip(4).skip(1) =~= s.skip(5));
    assert(s.skip(5).skip(1) =~= s.skip(6));
    assert(s.skip(6).skip(1) =~= s.skip(7));
    assert(s.skip(7).skip(1) =~= s.skip(8));
    assert(s.skip(8).len() == 0);
}

/// A seven-limb radix-2^64 vector's value, written out.
pub proof fn lemma_val64_len7(s: Seq<u64>)
    requires
        s.len() == 7,
    ensures
        val64(s) == s[0] + s[1] * 0x10000000000000000
            + s[2] * 0x100000000000000000000000000000000
            + s[3] * 0x1000000000000000000000000000000000000000000000000
            + s[4] * 0x10000000000000000000000000000000000000000000000000000000000000000
            + s[5] * 0x100000000000000000000000000000000000000000000000000000000000000000000000000000000
            + s[6] * 0x1000000000000000000000000000000000000000000000000000000000000000000000000000000000000000000000000,
{
    reveal_with_fuel(val64, 8);
    assert(s.skip(1).skip(1) =~= s.skip(2));
    assert(s.skip(2).skip(1) =~= s.skip(3));
    assert(s.skip(3).skip(1) =~= s.skip(4));
    assert(s.skip(4).skip(1) =~= s.skip(5));
    assert(s.skip(5).skip(1) =~= s.skip(6));
    assert(s.skip(6).skip(1) =~= s.skip(7));
    assert(s.skip(7).len() == 0);
}

/// A vector of `n` limbs has a value below `2^(64n)`.
pub proof fn lemma_val64_bound(s: Seq<u64>)
    ensures
        0 <= val64(s) < pow2(64 * s.len()),
    decreases s.len(),
{
    if s.len() == 0 {
        lemma_pow2_pos(0);
    } else {
        let rest = val64(s.skip(1));
        let w = pow2(64 * (s.len() - 1) as nat);
        lemma_val64_bound(s.skip(1));
        lemma_pow2_adds(64, 64 * (s.len() - 1) as nat);
        assert(pow2(64) == 0x10000000000000000) by {
            lemma2_to64();
        }
        assert(s[0] + 0x10000000000000000 * rest < 0x10000000000000000 * (rest + 1))
            by (nonlinear_arith)
            requires
                s[0] < 0x10000000000000000,
        ;
        assert(0x10000000000000000 * (rest + 1) <= 0x10000000000000000 * w) by (nonlinear_arith)
            requires
                rest + 1 <= w,
        ;
        assert(64 * s.len() == 64 + 64 * (s.len() - 1) as nat);
    }
}

/// Bit `j` of a limb vector's value is bit `j % 64` of limb `j / 64`.
pub proof fn lemma_val64_bit(s: Seq<u64>, j: nat)
    requires
        j / 64 < s.len(),
    ensures
        (val64(s) / pow2(j) as int) % 2 == (s[(j / 64) as int] as int / pow2(j % 64) as int) % 2,
    decreases s.len(),
{
    let rest = val64(s.skip(1));
    lemma_val64_nonneg(s.skip(1));
    lemma_pow2_pos(j);
    if j < 64 {
        // val64(s) / 2^j = s[0] / 2^j + 2^(64 - j) * rest, and the second term is even.
        let w = pow2((64 - j) as nat);
        lemma_pow2_adds(j, (64 - j) as nat);
        assert(0x10000000000000000 == pow2(64)) by {
            lemma2_to64();
        }
        assert(0x10000000000000000 * rest == pow2(j) * (w * rest)) by (nonlinear_arith)
            requires
                0x10000000000000000 == pow2(j) * w,
        ;
        lemma_pow2_pos((64 - j) as nat);
        lemma_hoist_over_denominator(s[0] as int, w * rest, pow2(j));
        assert(val64(s) / pow2(j) as int == w * rest + s[0] as int / pow2(j) as int);
        lemma_pow2_pos((63 - j) as nat);
        assert(w == 2 * pow2((63 - j) as nat)) by {
            lemma_pow2_adds(1, (63 - j) as nat);
            lemma2_to64();
        }
        assert(w * rest == 2 * (pow2((63 - j) as nat) * rest)) by (nonlinear_arith)
            requires
                w == 2 * pow2((63 - j) as nat),
        ;
        lemma_mod_multiples_vanish(
            pow2((63 - j) as nat) * rest,
            s[0] as int / pow2(j) as int,
            2,
        );
        assert(j % 64 == j);
        assert(j / 64 == 0);
    } else {
        let j1 = (j - 64) as nat;
        lemma_pow2_adds(64, j1);
        lemma_pow2_pos(64);
        lemma_pow2_pos(j1);
        lemma_div_denominator(val64(s), pow2(64) as int, pow2(j1) as int);
        assert(0x10000000000000000 == pow2(64)) by {
            lemma2_to64();
        }
        lemma_hoist_over_denominator(s[0] as int, rest, pow2(64));
        lemma_basic_div(s[0] as int, pow2(64) as int);
        assert(val64(s) / pow2(64) as int == rest);
        assert(val64(s) / pow2(j) as int == rest / pow2(j1) as int);
        lemma_val64_bit(s.skip(1), j1);
        assert(j1 / 64 == j / 64 - 1);
        assert(j1 % 64 == j % 64);
        assert(s.skip(1)[(j1 / 64) as int] == s[(j / 64) as int]);
    }
}

/// Packing seven bytes into each radix-2^56 limb preserves the value.
pub proof fn lemma_le_val_chunks7(b: Seq<u8>, ls: Seq<u64>)
    requires
        b.len() == 7 * ls.len(),
        forall|i: int| 0 <= i < ls.len() ==> ls[i] == le_val(b.subrange(7 * i, 7 * i + 7)),
    ensures
        val56(ls) == le_val(b),
    decreases ls.len(),
{
    if ls.len() == 0 {
        assert(b.len() == 0);
    } else {
        lemma_le_val_split(b, 7);
        assert(b.take(7) =~= b.subrange(0, 7));
        assert(ls[0] == le_val(b.take(7)));
        let b1 = b.skip(7);
        let ls1 = ls.skip(1);
        assert forall|i: int| 0 <= i < ls1.len() implies ls1[i] == le_val(
            b1.subrange(7 * i, 7 * i + 7),
        ) by {
            assert(ls1[i] == ls[i + 1]);
            assert(b1.subrange(7 * i, 7 * i + 7) =~= b.subrange(7 * (i + 1), 7 * (i + 1) + 7));
        }
        lemma_le_val_chunks7(b1, ls1);
        assert(pow2(56) == 0x100000000000000) by {
            lemma2_to64_rest();
        }
        assert(val56(ls) == ls[0] + 0x100000000000000 * val56(ls1));
    }
}

/// Reading a string backwards turns its big-endian value into the
/// little-endian value of the reversed string.
pub proof fn lemma_reversed_le_is_be(s: Seq<u8>, t: Seq<u8>)
    requires
        s.len() == t.len(),
        forall|j: int| 0 <= j < t.len() ==> t[j] == s[s.len() - 1 - j],
    ensures
        le_val(t) == be_val(s),
    decreases s.len(),
{
    if s.len() > 0 {
        let s1 = s.drop_last();
        let t1 = t.skip(1);
        assert(t1.len() == s1.len());
        assert(forall|j: int| 0 <= j < t1.len() ==> t1[j] == s1[s1.len() - 1 - j]);
        lemma_reversed_le_is_be(s1, t1);
        assert(t[0] == s.last());
    }
}

} // verus!
