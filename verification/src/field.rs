//! Elements of `GF(p)` with `p = 2^448 - 2^224 - 1`, stored as eight
//! radix-2^56 limbs. The carry-save limb arithmetic itself is delegated to
//! the formally derived routines of the `fiat_crypto` crate; everything that
//! is built on top of it (byte decoding, exponentiation, square roots,
//! comparisons) is verified here against the integer value of an element.

use vstd::prelude::*;
use vstd::arithmetic::power::{pow, lemma_pow_adds, lemma_pow0, lemma_pow1};
use vstd::arithmetic::power2::{pow2, lemma_pow2_adds, lemma_pow2_pos, lemma2_to64};
use vstd::arithmetic::div_mod::{
    lemma_basic_div, lemma_div_denominator, lemma_fundamental_div_mod,
    lemma_mod_division_less_than_divisor, lemma_mul_mod_noop_general, lemma_small_mod,
};
use vstd::bits::lemma_u64_shr_is_div;
use fiat_crypto::p448_solinas_64::{
    fiat_p448_add, fiat_p448_carry, fiat_p448_carry_mul, fiat_p448_carry_square,
    fiat_p448_loose_field_element, fiat_p448_opp, fiat_p448_selectznz, fiat_p448_sub,
    fiat_p448_tight_field_element, fiat_p448_to_bytes,
};
use crate::limbs::{
    le_val, val56, val64, lemma_le_val_chunks7, lemma_le_val_len7, lemma_le_val_parity,
    lemma_le_val_injective, lemma_le_val_nonneg, lemma_val56_len8, lemma_val56_nonneg,
    lemma_val64_bit, lemma_val64_bound, lemma_val64_len7, lemma_val64_nonneg,
};

verus! {

/// The prime modulus of the base field, `2^448 - 2^224 - 1`.
pub open spec fn p() -> int {
    0xfffffffffffffffffffffffffffffffffffffffffffffffffffffffeffffffffffffffffffffffffffffffffffffffffffffffffffffffffint
}

/// Addition in `GF(p)`.
pub open spec fn fadd(a: int, b: int) -> int {
    (a + b) % p()
}

/// Subtraction in `GF(p)`.
pub open spec fn fsub(a: int, b: int) -> int {
    (a - b) % p()
}

/// Negation in `GF(p)`.
pub open spec fn fneg(a: int) -> int {
    (0 - a) % p()
}

/// Multiplication in `GF(p)`.
pub open spec fn fmul(a: int, b: int) -> int {
    (a * b) % p()
}

/// Exponentiation in `GF(p)`.
pub open spec fn fpow(b: int, e: nat) -> int {
    pow(b, e) % p()
}

/// The multiplicative-inverse map `a^(p-2)`; it sends zero to zero.
pub open spec fn finv(a: int) -> int {
    fpow(a, (p() - 2) as nat)
}

/// The square-root map `a^((p+1)/4)`, valid because `p = 3 mod 4`; its
/// result squares to `a` exactly when `a` is a square in `GF(p)`.
pub open spec fn fsqrt(a: int) -> int {
    fpow(a, ((p() + 1) / 4) as nat)
}

/// An element of `GF(p)`. Its mathematical value is `view`, the limb value
/// reduced mod p; the limbs stay within fiat's "tight" bounds.
#[derive(Clone, Copy, Debug)]
pub struct FieldElement {
    pub(crate) limbs: [u64; 8],
}

/// A transient fiat "loose bounds" element, as produced by additions before
/// a carry pass.
#[derive(Clone, Copy)]
pub(crate) struct LooseElement {
    pub(crate) limbs: [u64; 8],
}

impl View for FieldElement {
    type V = int;

    closed spec fn view(&self) -> int {
        val56(self.limbs@) % p()
    }
}

impl View for LooseElement {
    type V = int;

    closed spec fn view(&self) -> int {
        val56(self.limbs@) % p()
    }
}

impl FieldElement {
    /// Limbs admissible as inputs to fiat's carry-form multiplications.
    #[verifier::type_invariant]
    pub closed spec fn tight(self) -> bool {
        forall|i: int| 0 <= i < 8 ==> self.limbs@[i] <= 0x100000000000000u64
    }
}

impl LooseElement {
    #[verifier::type_invariant]
    pub closed spec fn loose(self) -> bool {
        forall|i: int| 0 <= i < 8 ==> self.limbs@[i] <= 0x300000000000000u64
    }
}

/// The value of a field element lies in `[0, p)`.
pub proof fn lemma_fe_range(a: FieldElement)
    ensures
        0 <= a@ < p(),
{
    lemma_val56_nonneg(a.limbs@);
    lemma_mod_division_less_than_divisor(val56(a.limbs@), p());
}

/// Relies on fiat_p448_carry_mul: the limb value of the result equals the
/// product of the inputs' limb values, mod p, within tight bounds.
#[verifier::external_body]
fn fe_mul_raw(a: &FieldElement, b: &FieldElement) -> (r: FieldElement)
    ensures
        r@ == fmul(a@, b@),
{
    let mut out = fiat_p448_tight_field_element([0; 8]);
    fiat_p448_carry_mul(
        &mut out,
        &fiat_p448_loose_field_element(a.limbs),
        &fiat_p448_loose_field_element(b.limbs),
    );
    FieldElement { limbs: out.0 }
}

/// Relies on fiat_p448_carry_square: the result's value is the square of the
/// input's value, mod p.
#[verifier::external_body]
fn fe_square_raw(a: &FieldElement) -> (r: FieldElement)
    ensures
        r@ == fmul(a@, a@),
{
    let mut out = fiat_p448_tight_field_element([0; 8]);
    fiat_p448_carry_square(&mut out, &fiat_p448_loose_field_element(a.limbs));
    FieldElement { limbs: out.0 }
}

/// Relies on fiat_p448_add: the result's value is the sum of the inputs'
/// values mod p, within loose bounds.
#[verifier::external_body]
fn fe_add_raw(a: &FieldElement, b: &FieldElement) -> (r: LooseElement)
    ensures
        r@ == fadd(a@, b@),
{
    let mut out = fiat_p448_loose_field_element([0; 8]);
    fiat_p448_add(
        &mut out,
        &fiat_p448_tight_field_element(a.limbs),
        &fiat_p448_tight_field_element(b.limbs),
    );
    LooseElement { limbs: out.0 }
}

/// Relies on fiat_p448_sub: the result's value is the difference of the
/// inputs' values mod p, within loose bounds.
#[verifier::external_body]
fn fe_sub_raw(a: &FieldElement, b: &FieldElement) -> (r: LooseElement)
    ensures
        r@ == fsub(a@, b@),
{
    let mut out = fiat_p448_loose_field_element([0; 8]);
    fiat_p448_sub(
        &mut out,
        &fiat_p448_tight_field_element(a.limbs),
        &fiat_p448_tight_field_element(b.limbs),
    );
    LooseElement { limbs: out.0 }
}

/// Relies on fiat_p448_opp: the result's value is the negation of the
/// input's value mod p, within loose bounds.
#[verifier::external_body]
fn fe_opp_raw(a: &FieldElement) -> (r: LooseElement)
    ensures
        r@ == fneg(a@),
{
    let mut out = fiat_p448_loose_field_element([0; 8]);
    fiat_p448_opp(&mut out, &fiat_p448_tight_field_element(a.limbs));
    LooseElement { limbs: out.0 }
}

/// Relies on fiat_p448_carry: one carry pass brings loose limbs back to
/// tight bounds without changing the value mod p.
#[verifier::external_body]
fn fe_carry(a: &LooseElement) -> (r: FieldElement)
    ensures
        r@ == a@,
{
    let mut out = fiat_p448_tight_field_element([0; 8]);
    fiat_p448_carry(&mut out, &fiat_p448_loose_field_element(a.limbs));
    FieldElement { limbs: out.0 }
}

/// Relies on fiat_p448_to_bytes: the canonical 56-byte little-endian
/// encoding of the fully reduced value, so the bytes read back as the value
/// itself.
#[verifier::external_body]
fn fe_to_bytes_raw(a: &FieldElement) -> (r: [u8; 56])
    ensures
        le_val(r@) == a@,
{
    let mut out = [0u8; 56];
    fiat_p448_to_bytes(&mut out, &fiat_p448_tight_field_element(a.limbs));
    out
}

/// Relies on fiat_p448_selectznz: a constant-time choice that returns the
/// second argument when the flag is clear and the third when it is set.
#[verifier::external_body]
pub(crate) fn fe_select(a: &FieldElement, b: &FieldElement, choice: bool) -> (r: FieldElement)
    ensures
        r == (if choice {
            *b
        } else {
            *a
        }),
{
    let mut out = [0u64; 8];
    fiat_p448_selectznz(&mut out, choice as u8, &a.limbs, &b.limbs);
    FieldElement { limbs: out }
}

impl FieldElement {
    /// Builds an element from its eight radix-2^56 limbs.
    pub(crate) fn from_limbs(limbs: [u64; 8]) -> (r: FieldElement)
        requires
            forall|i: int| 0 <= i < 8 ==> limbs@[i] <= 0x100000000000000u64,
        ensures
            r@ == val56(limbs@) % p(),
    {
        FieldElement { limbs }
    }

    /// The element with a given small value.
    pub fn small(v: u64) -> (r: FieldElement)
        requires
            v < 0x100000000000000,
        ensures
            r@ == v as int,
    {
        let limbs = [v, 0u64, 0, 0, 0, 0, 0, 0];
        proof {
            lemma_val56_len8(limbs@);
            assert(val56(limbs@) == v);
            lemma_small_mod(v as nat, p() as nat);
        }
        FieldElement { limbs }
    }

    /// Zero, the additive identity.
    pub fn zero() -> (r: FieldElement)
        ensures
            r@ == 0,
    {
        FieldElement::small(0)
    }

    /// One, the multiplicative identity.
    pub fn one() -> (r: FieldElement)
        ensures
            r@ == 1,
    {
        FieldElement::small(1)
    }

    /// The curve constant `d = -39081`.
    pub fn edwards_d() -> (r: FieldElement)
        ensures
            r@ == p() - 39081,
    {
        let limbs = [
            0xffffffffff6756u64,
            0xffffffffffffff,
            0xffffffffffffff,
            0xffffffffffffff,
            0xfffffffffffffe,
            0xffffffffffffff,
            0xffffffffffffff,
            0xffffffffffffff,
        ];
        proof {
            lemma_val56_len8(limbs@);
            assert(val56(limbs@) == p() - 39081);
            lemma_small_mod((p() - 39081) as nat, p() as nat);
        }
        FieldElement { limbs }
    }

    /// The twisted-curve constant `d - 1 = -39082`.
    pub fn twisted_d() -> (r: FieldElement)
        ensures
            r@ == p() - 39082,
    {
        let limbs = [
            0xffffffffff6755u64,
            0xffffffffffffff,
            0xffffffffffffff,
            0xffffffffffffff,
            0xfffffffffffffe,
            0xffffffffffffff,
            0xffffffffffffff,
            0xffffffffffffff,
        ];
        proof {
            lemma_val56_len8(limbs@);
            assert(val56(limbs@) == p() - 39082);
            lemma_small_mod((p() - 39082) as nat, p() as nat);
        }
        FieldElement { limbs }
    }

    /// Product of two elements.
    pub fn mul(&self, rhs: &FieldElement) -> (r: FieldElement)
        ensures
            r@ == fmul(self@, rhs@),
    {
        fe_mul_raw(self, rhs)
    }

    /// Square of an element.
    pub fn square(&self) -> (r: FieldElement)
        ensures
            r@ == fmul(self@, self@),
    {
        fe_square_raw(self)
    }

    /// Sum of two elements.
    pub fn add(&self, rhs: &FieldElement) -> (r: FieldElement)
        ensures
            r@ == fadd(self@, rhs@),
    {
        let l = fe_add_raw(self, rhs);
        fe_carry(&l)
    }

    /// Difference of two elements.
    pub fn sub(&self, rhs: &FieldElement) -> (r: FieldElement)
        ensures
            r@ == fsub(self@, rhs@),
    {
        let l = fe_sub_raw(self, rhs);
        fe_carry(&l)
    }

    /// Additive inverse of an element.
    pub fn negate(&self) -> (r: FieldElement)
        ensures
            r@ == fneg(self@),
    {
        let l = fe_opp_raw(self);
        fe_carry(&l)
    }

    /// The canonical 56-byte little-endian encoding.
    pub fn to_bytes(&self) -> (r: [u8; 56])
        ensures
            le_val(r@) == self@,
    {
        fe_to_bytes_raw(self)
    }

    /// Reads 56 little-endian bytes, reducing mod p.
    pub fn from_bytes(b: &[u8; 56]) -> (r: FieldElement)
        ensures
            r@ == le_val(b@) % p(),
    {
        let limbs = [
            limb7(b, 0),
            limb7(b, 1),
            limb7(b, 2),
            limb7(b, 3),
            limb7(b, 4),
            limb7(b, 5),
            limb7(b, 6),
            limb7(b, 7),
        ];
        proof {
            assert(forall|i: int|
                0 <= i < 8 ==> limbs@[i] == le_val(b@.subrange(7 * i, 7 * i + 7)));
            lemma_le_val_chunks7(b@, limbs@);
        }
        FieldElement { limbs }
    }

    /// The sign of an element: the least significant bit of its canonical
    /// encoding.
    pub fn is_negative(&self) -> (r: bool)
        ensures
            r == (self@ % 2 == 1),
    {
        let b = self.to_bytes();
        let b0 = b[0];
        proof {
            lemma_le_val_parity(b@);
            lemma_fe_range(*self);
            assert((b0 & 1 == 1) == (b0 % 2 == 1)) by (bit_vector);
        }
        (b0 & 1) == 1
    }

    /// The inverse map `a^(p-2)`, sending zero to zero.
    pub fn invert(&self) -> (r: FieldElement)
        ensures
            r@ == finv(self@),
    {
        let e: [u64; 7] = [
            0xfffffffffffffffd,
            0xffffffffffffffff,
            0xffffffffffffffff,
            0xfffffffeffffffff,
            0xffffffffffffffff,
            0xffffffffffffffff,
            0xffffffffffffffff,
        ];
        proof {
            lemma_val64_len7(e@);
            assert(val64(e@) == p() - 2);
        }
        fe_pow(self, &e)
    }

    /// The square-root candidate `a^((p+1)/4)`.
    pub fn sqrt_candidate(&self) -> (r: FieldElement)
        ensures
            r@ == fsqrt(self@),
    {
        let e: [u64; 7] = [
            0x0,
            0x0,
            0x0,
            0xffffffffc0000000,
            0xffffffffffffffff,
            0xffffffffffffffff,
            0x3fffffffffffffff,
        ];
        proof {
            lemma_val64_len7(e@);
            assert(val64(e@) == (p() + 1) / 4);
        }
        fe_pow(self, &e)
    }
}

impl PartialEq for FieldElement {
    /// Value equality, decided on the canonical encodings.
    fn eq(&self, other: &FieldElement) -> (r: bool) {
        let a = self.to_bytes();
        let b = other.to_bytes();
        proof {
            lemma_fe_range(*self);
            lemma_fe_range(*other);
            if self@ == other@ {
                lemma_le_val_injective(a@, b@);
            }
        }
        let mut i: usize = 0;
        let mut same: bool = true;
        while i < 56
            invariant
                0 <= i <= 56,
                le_val(a@) == self@,
                le_val(b@) == other@,
                same == (a@.subrange(0, i as int) =~= b@.subrange(0, i as int)),
            decreases 56 - i,
        {
            let ai = a[i];
            let bi = b[i];
            proof {
                let k = i as int;
                if same && ai == bi {
                    assert forall|j: int| 0 <= j < k + 1 implies #[trigger] a@.subrange(0, k + 1)[j]
                        == b@.subrange(0, k + 1)[j] by {
                        if j < k {
                            assert(a@.subrange(0, k)[j] == b@.subrange(0, k)[j]);
                        }
                    }
                    assert(a@.subrange(0, k + 1) =~= b@.subrange(0, k + 1));
                } else {
                    if a@.subrange(0, k + 1) =~= b@.subrange(0, k + 1) {
                        assert(a@.subrange(0, k) =~= a@.subrange(0, k + 1).subrange(0, k));
                        assert(b@.subrange(0, k) =~= b@.subrange(0, k + 1).subrange(0, k));
                        assert(a@.subrange(0, k + 1)[k] == b@.subrange(0, k + 1)[k]);
                        assert(false);
                    }
                }
            }
            same = same && (ai == bi);
            i += 1;
        }
        proof {
            if same {
                assert(a@.subrange(0, 56) =~= a@);
                assert(b@.subrange(0, 56) =~= b@);
                assert(a@ =~= b@);
            } else {
                if self@ == other@ {
                    assert(a@.subrange(0, 56) =~= b@.subrange(0, 56));
                    assert(false);
                }
            }
        }
        same
    }
}

impl Eq for FieldElement {

}

impl vstd::std_specs::cmp::PartialEqSpecImpl for FieldElement {
    open spec fn obeys_eq_spec() -> bool {
        true
    }

    open spec fn eq_spec(&self, other: &FieldElement) -> bool {
        self@ == other@
    }
}

/// Packs seven consecutive bytes into one radix-2^56 limb.
fn limb7(b: &[u8; 56], i: usize) -> (l: u64)
    requires
        i < 8,
    ensures
        l <= 0x100000000000000,
        l == le_val(b@.subrange(7 * i as int, 7 * i as int + 7)),
{
    let x0 = b[7 * i] as u64;
    let x1 = b[7 * i + 1] as u64;
    let x2 = b[7 * i + 2] as u64;
    let x3 = b[7 * i + 3] as u64;
    let x4 = b[7 * i + 4] as u64;
    let x5 = b[7 * i + 5] as u64;
    let x6 = b[7 * i + 6] as u64;
    let l = x0 | (x1 << 8) | (x2 << 16) | (x3 << 24) | (x4 << 32) | (x5 << 40) | (x6 << 48);
    proof {
        assert(l == x0 + x1 * 0x100 + x2 * 0x10000 + x3 * 0x1000000 + x4 * 0x100000000
            + x5 * 0x10000000000 + x6 * 0x1000000000000 && l < 0x100000000000000)
            by (bit_vector)
            requires
                x0 < 0x100 && x1 < 0x100 && x2 < 0x100 && x3 < 0x100 && x4 < 0x100 && x5 < 0x100
                    && x6 < 0x100,
                l == x0 | (x1 << 8) | (x2 << 16) | (x3 << 24) | (x4 << 32) | (x5 << 40) | (
                x6 << 48),
        ;
        let s = b@.subrange(7 * i as int, 7 * i as int + 7);
        lemma_le_val_len7(s);
    }
    l
}

/// Reads one bit of a 448-bit little-endian limb vector.
fn bit448(e: &[u64; 7], j: usize) -> (b: bool)
    requires
        j < 448,
    ensures
        b == ((val64(e@) / pow2(j as nat) as int) % 2 == 1),
{
    let q = j / 64;
    let r = j % 64;
    let w = e[q];
    let sh = (w >> (r as u64)) & 1;
    proof {
        lemma_val64_bit(e@, j as nat);
        lemma_u64_shr_is_div(w, r as u64);
        let t = w >> (r as u64);
        assert((t & 1) as int == t as int % 2) by (bit_vector);
        lemma_pow2_pos(r as nat);
    }
    sh == 1
}

/// `fpow` of a doubled exponent is the square; an added unit multiplies by
/// the base. These drive the square-and-multiply loop.
proof fn lemma_fpow_step(b: int, k: nat)
    ensures
        fpow(b, 2 * k) == fmul(fpow(b, k), fpow(b, k)),
        fpow(b, 2 * k + 1) == fmul(fpow(b, 2 * k), b),
{
    lemma_pow_adds(b, k, k);
    lemma_mul_mod_noop_general(pow(b, k), pow(b, k), p());
    lemma_pow_adds(b, 2 * k, 1);
    lemma_pow1(b);
    lemma_mul_mod_noop_general(pow(b, 2 * k), b, p());
}

/// Square-and-multiply exponentiation with a fixed 448-bit exponent,
/// most significant bit first, one conditional select per bit.
pub(crate) fn fe_pow(a: &FieldElement, e: &[u64; 7]) -> (r: FieldElement)
    ensures
        r@ == fpow(a@, val64(e@) as nat),
{
    let ghost ev: int = val64(e@);
    proof {
        lemma_val64_bound(e@);
        assert(64 * e@.len() == 448);
    }
    let mut acc = FieldElement::one();
    proof {
        lemma_pow2_pos(448);
        lemma_basic_div(ev, pow2(448) as int);
        lemma_pow0(a@);
        lemma_small_mod(1, p() as nat);
    }
    let mut i: usize = 0;
    while i < 448
        invariant
            0 <= i <= 448,
            ev == val64(e@),
            0 <= ev < pow2(448),
            acc@ == fpow(a@, (ev / pow2((448 - i) as nat) as int) as nat),
        decreases 448 - i,
    {
        let j = 447 - i;
        let ghost k = ev / pow2((448 - i) as nat) as int;
        let ghost k2 = ev / pow2((447 - i) as nat) as int;
        proof {
            lemma_pow2_pos((447 - i) as nat);
            lemma_pow2_pos((448 - i) as nat);
            lemma_pow2_adds((447 - i) as nat, 1);
            assert(pow2(1) == 2) by {
                lemma2_to64();
            }
            lemma_div_denominator(ev, pow2((447 - i) as nat) as int, 2);
            assert(k2 / 2 == k);
            lemma_fundamental_div_mod(k2, 2);
            lemma_mod_division_less_than_divisor(k2, 2);
            assert(0 <= k2);
            assert(k2 == 2 * k + k2 % 2);
            lemma_fpow_step(a@, k as nat);
        }
        acc = acc.square();
        let t = acc.mul(a);
        let bit = bit448(e, j);
        acc = fe_select(&acc, &t, bit);
        proof {
            assert(k2 % 2 == 1 ==> acc@ == fpow(a@, (2 * k + 1) as nat));
            assert(k2 % 2 != 1 ==> k2 == 2 * k && acc@ == fpow(a@, (2 * k) as nat));
        }
        i += 1;
    }
    proof {
        assert(pow2(0) == 1) by {
            lemma2_to64();
        }
        assert(ev / 1int == ev);
    }
    acc
}

} // verus!
