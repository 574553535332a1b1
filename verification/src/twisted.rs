//! Points on the twisted Edwards curve `-x^2 + y^2 = 1 + d' x^2 y^2` with
//! `d' = -39082`, which is 4-isogenous to the untwisted curve. The scalar
//! ladder runs here on the quarter of the scalar, and the dual isogeny
//! carries the result back.

#![allow(non_snake_case)]

use vstd::prelude::*;
use vstd::arithmetic::power2::{pow2, lemma_pow2_adds, lemma_pow2_pos, lemma2_to64};
use vstd::arithmetic::div_mod::{
    lemma_basic_div, lemma_div_denominator, lemma_fundamental_div_mod,
    lemma_mod_division_less_than_divisor, lemma_small_mod,
};
use crate::field::{fadd, fsub, fmul, fneg, finv, fe_select, p, FieldElement};
use crate::scalar::Scalar;
use crate::extended::{isogeny_spec, ExtendedPoint};
use crate::limbs::{val56, lemma_val56_len8};

verus! {

/// The identity of the twisted curve, `(0 : 1 : 1 : 0)`.
pub open spec fn tw_id_spec() -> (int, int, int, int) {
    (0, 1, 1, 0)
}

/// The unified addition formula with `a = -1` and `d' = -39082`.
pub open spec fn tw_add_spec(p1: (int, int, int, int), p2: (int, int, int, int)) -> (
    int,
    int,
    int,
    int,
) {
    let axx = fneg(fmul(p1.0, p2.0));
    let dtt = fmul(fmul(p() - 39082, p1.3), p2.3);
    let zz = fmul(p1.2, p2.2);
    let yy = fmul(p1.1, p2.1);
    let e = fadd(fmul(p1.0, p2.1), fmul(p1.1, p2.0));
    (
        fmul(e, fsub(zz, dtt)),
        fmul(fsub(yy, axx), fadd(zz, dtt)),
        fmul(fsub(zz, dtt), fadd(zz, dtt)),
        fmul(fsub(yy, axx), e),
    )
}

/// The double-and-add trace of the ladder: the exact coordinate tuple the
/// most-significant-bit-first ladder computes for the multiple `e * Q`.
pub open spec fn tw_ladder(q: (int, int, int, int), e: nat) -> (int, int, int, int)
    decreases e,
{
    if e == 0 {
        tw_id_spec()
    } else {
        let h = tw_ladder(q, e / 2);
        let d = tw_add_spec(h, h);
        if e % 2 == 1 {
            tw_add_spec(d, q)
        } else {
            d
        }
    }
}

/// The sum of the twisted identity with itself is the identity, coordinate
/// for coordinate.
pub proof fn lemma_tw_add_id()
    ensures
        tw_add_spec(tw_id_spec(), tw_id_spec()) == tw_id_spec(),
{
    lemma_small_mod(0, p() as nat);
    lemma_small_mod(1, p() as nat);
}

/// The ladder run from the identity stays at the identity whatever the
/// scalar.
pub proof fn lemma_tw_ladder_id(e: nat)
    ensures
        tw_ladder(tw_id_spec(), e) == tw_id_spec(),
    decreases e,
{
    if e > 0 {
        lemma_tw_ladder_id(e / 2);
        lemma_tw_add_id();
    }
}

/// Projective equality on the twisted curve by cross-multiplication.
pub open spec fn tw_eq_spec(p1: (int, int, int, int), p2: (int, int, int, int)) -> bool {
    fmul(p1.0, p2.2) == fmul(p2.0, p1.2) && fmul(p1.1, p2.2) == fmul(p2.1, p1.2)
}

/// A point on the twisted curve in extended homogeneous coordinates.
#[derive(Clone, Copy, Debug)]
pub struct TwistedExtendedPoint {
    pub X: FieldElement,
    pub Y: FieldElement,
    pub Z: FieldElement,
    pub T: FieldElement,
}

impl View for TwistedExtendedPoint {
    type V = (int, int, int, int);

    open spec fn view(&self) -> (int, int, int, int) {
        (self.X@, self.Y@, self.Z@, self.T@)
    }
}

impl TwistedExtendedPoint {
    /// The identity point.
    pub fn identity() -> (r: TwistedExtendedPoint)
        ensures
            r@ == tw_id_spec(),
    {
        TwistedExtendedPoint {
            X: FieldElement::zero(),
            Y: FieldElement::one(),
            Z: FieldElement::one(),
            T: FieldElement::zero(),
        }
    }

    /// The twisted-curve image of the generator under the 4-isogeny.
    pub fn basepoint() -> (r: TwistedExtendedPoint)
        ensures
            r@ == (twisted_basepoint_x(), twisted_basepoint_y(), 1int, fmul(
                twisted_basepoint_x(),
                twisted_basepoint_y(),
            )),
    {
        let xl: [u64; 8] = [
            0,
            0,
            0,
            0x80000000000000,
            0xfffffffffffffe,
            0xffffffffffffff,
            0xffffffffffffff,
            0x7fffffffffffff,
        ];
        let yl: [u64; 8] = [
            0x6079b4dfdd4a64,
            0xc1e3ab470a1c8,
            0x44d73f48e5199b,
            0x50452714141818,
            0x4c74c393d5242c,
            0x24080526437050,
            0xd48d06c13078ca,
            0x8508de14f04286,
        ];
        let bx = FieldElement::from_limbs(xl);
        let by = FieldElement::from_limbs(yl);
        proof {
            lemma_val56_len8(xl@);
            lemma_val56_len8(yl@);
            assert(val56(xl@) == twisted_basepoint_x());
            assert(val56(yl@) == twisted_basepoint_y());
            lemma_small_mod(twisted_basepoint_x() as nat, p() as nat);
            lemma_small_mod(twisted_basepoint_y() as nat, p() as nat);
        }
        let t = bx.mul(&by);
        TwistedExtendedPoint { X: bx, Y: by, Z: FieldElement::one(), T: t }
    }

    /// Constant-time selection, coordinate by coordinate.
    pub fn conditional_select(
        a: &TwistedExtendedPoint,
        b: &TwistedExtendedPoint,
        choice: bool,
    ) -> (r: TwistedExtendedPoint)
        ensures
            r == (if choice {
                *b
            } else {
                *a
            }),
    {
        TwistedExtendedPoint {
            X: fe_select(&a.X, &b.X, choice),
            Y: fe_select(&a.Y, &b.Y, choice),
            Z: fe_select(&a.Z, &b.Z, choice),
            T: fe_select(&a.T, &b.T, choice),
        }
    }

    /// Unified addition with `a = -1`.
    pub fn add(&self, other: &TwistedExtendedPoint) -> (r: TwistedExtendedPoint)
        ensures
            r@ == tw_add_spec(self@, other@),
    {
        let aXX = self.X.mul(&other.X).negate();
        let dTT = FieldElement::twisted_d().mul(&self.T).mul(&other.T);
        let ZZ = self.Z.mul(&other.Z);
        let YY = self.Y.mul(&other.Y);
        let e = self.X.mul(&other.Y).add(&self.Y.mul(&other.X));
        let f = ZZ.sub(&dTT);
        let g = ZZ.add(&dTT);
        let h = YY.sub(&aXX);
        TwistedExtendedPoint { X: e.mul(&f), Y: h.mul(&g), Z: f.mul(&g), T: h.mul(&e) }
    }

    /// Projective equality by cross-multiplication.
    pub fn ct_eq(&self, other: &TwistedExtendedPoint) -> (r: bool)
        ensures
            r == tw_eq_spec(self@, other@),
    {
        let xz = self.X.mul(&other.Z);
        let zx = self.Z.mul(&other.X);
        let yz = self.Y.mul(&other.Z);
        let zy = self.Z.mul(&other.Y);
        let ex = xz == zx;
        let ey = yz == zy;
        ex && ey
    }

    /// The dual 4-isogeny, back to the untwisted curve; composed with
    /// `to_twisted` it multiplies by four.
    pub fn to_untwisted(&self) -> (r: ExtendedPoint)
        ensures
            r@ == isogeny_spec(self@, p() - 1),
    {
        let minus_one = FieldElement::zero().sub(&FieldElement::one());
        proof {
            assert(fsub(0, 1) == p() - 1);
        }
        let inv_z = self.Z.invert();
        let x = self.X.mul(&inv_z);
        let y = self.Y.mul(&inv_z);
        let xy = x.mul(&y);
        let x_num = xy.add(&xy);
        let x_denom = y.square().sub(&minus_one.mul(&x.square()));
        let new_x = x_num.mul(&x_denom.invert());
        let y_num = y.square().add(&minus_one.mul(&x.square()));
        let y_denom = FieldElement::one().add(&FieldElement::one()).sub(&y.square()).sub(
            &minus_one.mul(&x.square()),
        );
        let new_y = y_num.mul(&y_denom.invert());
        ExtendedPoint {
            X: new_x,
            Y: new_y,
            Z: FieldElement::one(),
            T: new_x.mul(&new_y),
        }
    }
}

/// The affine x coordinate of the twisted-curve base point.
pub open spec fn twisted_basepoint_x() -> int {
    0x7ffffffffffffffffffffffffffffffffffffffffffffffffffffffe80000000000000000000000000000000000000000000000000000000int
}

/// The affine y coordinate of the twisted-curve base point.
pub open spec fn twisted_basepoint_y() -> int {
    0x8508de14f04286d48d06c13078ca240805264370504c74c393d5242c5045271414181844d73f48e5199b0c1e3ab470a1c86079b4dfdd4a64int
}

impl PartialEq for TwistedExtendedPoint {
    /// Projective equality.
    fn eq(&self, other: &TwistedExtendedPoint) -> (r: bool) {
        self.ct_eq(other)
    }
}

impl Eq for TwistedExtendedPoint {

}

impl vstd::std_specs::cmp::PartialEqSpecImpl for TwistedExtendedPoint {
    open spec fn obeys_eq_spec() -> bool {
        true
    }

    open spec fn eq_spec(&self, other: &TwistedExtendedPoint) -> bool {
        tw_eq_spec(self@, other@)
    }
}

/// Constant-time variable-base scalar multiplication on the twisted curve:
/// a most-significant-bit-first double-and-add over all 448 scalar bits,
/// with one conditional select per bit. Its result is exactly the ladder
/// trace `tw_ladder`.
pub fn variable_base(point: &TwistedExtendedPoint, s: &Scalar) -> (r: TwistedExtendedPoint)
    ensures
        r@ == tw_ladder(point@, s@ as nat),
{
    let ghost sv: int = s@;
    proof {
        crate::scalar::lemma_scalar_range(*s);
    }
    let mut acc = TwistedExtendedPoint::identity();
    proof {
        lemma_pow2_pos(448);
        lemma_basic_div(sv, pow2(448) as int);
    }
    let mut i: usize = 0;
    while i < 448
        invariant
            0 <= i <= 448,
            sv == s@,
            0 <= sv < pow2(448),
            acc@ == tw_ladder(point@, (sv / pow2((448 - i) as nat) as int) as nat),
        decreases 448 - i,
    {
        let j = 447 - i;
        let ghost k = sv / pow2((448 - i) as nat) as int;
        let ghost k2 = sv / pow2((447 - i) as nat) as int;
        proof {
            lemma_pow2_pos((447 - i) as nat);
            lemma_pow2_pos((448 - i) as nat);
            lemma_pow2_adds((447 - i) as nat, 1);
            assert(pow2(1) == 2) by {
                lemma2_to64();
            }
            lemma_div_denominator(sv, pow2((447 - i) as nat) as int, 2);
            assert(k2 / 2 == k);
            lemma_fundamental_div_mod(k2, 2);
            lemma_mod_division_less_than_divisor(k2, 2);
            assert(0 <= k2);
            assert(k2 == 2 * k + k2 % 2);
        }
        acc = acc.add(&acc);
        let t = acc.add(point);
        let bit = s.bit(j);
        acc = TwistedExtendedPoint::conditional_select(&acc, &t, bit);
        proof {
            if k2 == 0 {
                assert(k == 0 && k2 % 2 == 0);
                lemma_tw_add_id();
                assert(acc@ == tw_ladder(point@, 0));
            } else {
                assert(tw_ladder(point@, k2 as nat) == (if k2 % 2 == 1 {
                    tw_add_spec(tw_add_spec(tw_ladder(point@, k as nat), tw_ladder(point@, k as nat)), point@)
                } else {
                    tw_add_spec(tw_ladder(point@, k as nat), tw_ladder(point@, k as nat))
                }));
            }
        }
        i += 1;
    }
    proof {
        assert(pow2(0) == 1) by {
            lemma2_to64();
        }
        assert(sv / 1int == sv);
    }
    acc
}

} // verus!
