//! Points on the untwisted Edwards curve `x^2 + y^2 = 1 + d*x^2*y^2` with
//! `d = -39081`, in extended homogeneous coordinates `(X : Y : Z : T)` where
//! the affine point is `(X/Z, Y/Z)` and `T = X*Y/Z`. Addition uses the
//! unified Hisil--Wong--Carter--Dawson formula, which on this curve is
//! complete, so doubling is the sum of a point with itself. Every operation
//! carries an exact contract over the integer values of the coordinates.

#![allow(non_snake_case)]

use vstd::prelude::*;
use vstd::arithmetic::div_mod::{lemma_mod_division_less_than_divisor, lemma_small_mod};
use crate::field::{
    fadd, fsub, fmul, fneg, finv, fsqrt, fe_select, p, FieldElement,
};
use crate::scalar::{basepoint_order, Scalar};
use crate::twisted::{tw_ladder, TwistedExtendedPoint};
use crate::limbs::{le_val, val56, lemma_val56_len8};

verus! {

/// The identity element `(0 : 1 : 1 : 0)`.
pub open spec fn id_spec() -> (int, int, int, int) {
    (0, 1, 1, 0)
}

/// The affine x coordinate of the generator: the historical Goldilocks
/// base point, whose double is the RFC 8032 base point.
pub open spec fn generator_x() -> int {
    0x4f1970c66bed0ded221d15a622bf36da9e146570470f1767ea6de324a3d3a46412ae1af72ab66511433b80e18b00938e2626a82bc70cc05eint
}

/// The affine y coordinate of the generator.
pub open spec fn generator_y() -> int {
    0x693f46716eb6bc248876203756c9c7624bea73736ca3984087789c1e05a0c2d73ad3ff1ce67c39c4fdbd132c4ed7c8ad9808795bf230fa14int
}

/// The unified addition formula on extended coordinates, with `a = 1`:
/// `X3 = (X1 Y2 + Y1 X2)(Z1 Z2 - d T1 T2)`,
/// `Y3 = (Y1 Y2 - X1 X2)(Z1 Z2 + d T1 T2)`,
/// `T3 = (Y1 Y2 - X1 X2)(X1 Y2 + Y1 X2)`,
/// `Z3 = (Z1 Z2 - d T1 T2)(Z1 Z2 + d T1 T2)`.
pub open spec fn ed_add_spec(p1: (int, int, int, int), p2: (int, int, int, int)) -> (
    int,
    int,
    int,
    int,
) {
    let axx = fmul(p1.0, p2.0);
    let dtt = fmul(fmul(p() - 39081, p1.3), p2.3);
    let zz = fmul(p1.2, p2.2);
    let yy = fmul(p1.1, p2.1);
    let e = fadd(fmul(p1.0, p2.1), fmul(p1.1, p2.0));
    (
        fmul(e, fsub(zz, dtt)),
        fmul(fsub(yy, axx), fadd(zz, dtt)),
        fmul(fsub(zz, dtt), fadd(zz, dtt)),
        fmul(fsub(yy, axx), e),
    )
}

/// Projective equality by cross-multiplication:
/// `X1 Z2 = X2 Z1` and `Y1 Z2 = Y2 Z1`.
pub open spec fn ed_eq_spec(p1: (int, int, int, int), p2: (int, int, int, int)) -> bool {
    fmul(p1.0, p2.2) == fmul(p2.0, p1.2) && fmul(p1.1, p2.2) == fmul(p2.1, p1.2)
}

/// Membership in extended coordinates: `X Y = Z T` and
/// `Y^2 + X^2 = Z^2 + d T^2`.
pub open spec fn on_curve_spec(pt: (int, int, int, int)) -> bool {
    fmul(pt.0, pt.1) == fmul(pt.2, pt.3) && fadd(fmul(pt.1, pt.1), fmul(pt.0, pt.0)) == fadd(
        fmul(pt.2, pt.2),
        fmul(fmul(pt.3, pt.3), p() - 39081),
    )
}

/// The affine coordinates `(X/Z, Y/Z)`, with division as multiplication by
/// the inverse map.
pub open spec fn affine_of(pt: (int, int, int, int)) -> (int, int) {
    (fmul(pt.0, finv(pt.2)), fmul(pt.1, finv(pt.2)))
}

/// The 4-isogeny written on affine coordinates, parameterized by the curve
/// constant `a`: `x' = 2xy / (y^2 - a x^2)`,
/// `y' = (y^2 + a x^2) / (2 - y^2 - a x^2)`, lifted with `Z = 1`.
pub open spec fn isogeny_spec(pt: (int, int, int, int), a: int) -> (int, int, int, int) {
    let x = affine_of(pt).0;
    let y = affine_of(pt).1;
    let xy = fmul(x, y);
    let xn = fadd(xy, xy);
    let xd = fsub(fmul(y, y), fmul(a, fmul(x, x)));
    let nx = fmul(xn, finv(xd));
    let yn = fadd(fmul(y, y), fmul(a, fmul(x, x)));
    let yd = fsub(fsub(fadd(1, 1), fmul(y, y)), fmul(a, fmul(x, x)));
    let ny = fmul(yn, finv(yd));
    (nx, ny, 1, fmul(nx, ny))
}

/// The residue multiple `(s mod 4) * P`, built from the unified addition.
pub open spec fn residue_spec(pt: (int, int, int, int), m: int) -> (int, int, int, int) {
    if m == 0 {
        id_spec()
    } else if m == 1 {
        pt
    } else if m == 2 {
        ed_add_spec(pt, pt)
    } else {
        ed_add_spec(ed_add_spec(pt, pt), pt)
    }
}

/// Scalar multiplication as the implementation performs it: the ladder on
/// the twisted curve for `floor(s/4)`, carried back through the dual
/// isogeny, plus the residue multiple.
pub open spec fn scalar_mul_spec(pt: (int, int, int, int), s: int) -> (int, int, int, int) {
    ed_add_spec(
        isogeny_spec(tw_ladder(isogeny_spec(pt, 1), (s / 4) as nat), p() - 1),
        residue_spec(pt, s % 4),
    )
}

/// The y value encoded by a 57-byte compressed point.
pub open spec fn decomp_y(b: Seq<u8>) -> int {
    le_val(b.subrange(0, 56)) % p()
}

/// The sign bit of a 57-byte compressed point: bit 7 of the last byte.
pub open spec fn decomp_sign(b: Seq<u8>) -> bool {
    b[56] as int / 128 == 1
}

/// The square-root candidate for the x coordinate recovered from `y`:
/// `sqrt((1 - y^2) / (1 - d y^2))`.
pub open spec fn decomp_candidate(b: Seq<u8>) -> int {
    let y = decomp_y(b);
    fsqrt(fmul(fsub(1, fmul(y, y)), finv(fsub(1, fmul(p() - 39081, fmul(y, y))))))
}

/// Whether the candidate actually solves `x^2 (1 - d y^2) = 1 - y^2`; this
/// holds exactly when `(1 - y^2)/(1 - d y^2)` is a square, i.e. when the
/// encoding names a curve point.
pub open spec fn decomp_ok(b: Seq<u8>) -> bool {
    let y = decomp_y(b);
    let num = fsub(1, fmul(y, y));
    let den = fsub(1, fmul(p() - 39081, fmul(y, y)));
    fmul(fmul(decomp_candidate(b), decomp_candidate(b)), den) == num
}

/// The recovered x coordinate: the candidate, negated if its sign does not
/// match the encoded sign bit.
pub open spec fn decomp_x(b: Seq<u8>) -> int {
    if decomp_sign(b) != (decomp_candidate(b) % 2 == 1) {
        fneg(decomp_candidate(b))
    } else {
        decomp_candidate(b)
    }
}

/// An affine point, used to lift coordinate pairs into extended form.
#[derive(Clone, Copy, Debug)]
pub struct AffinePoint {
    pub x: FieldElement,
    pub y: FieldElement,
}

impl AffinePoint {
    /// Lifts to extended coordinates with `Z = 1` and `T = x y`.
    pub fn to_extended(&self) -> (r: ExtendedPoint)
        ensures
            r@ == (self.x@, self.y@, 1int, fmul(self.x@, self.y@)),
    {
        ExtendedPoint {
            X: self.x,
            Y: self.y,
            Z: FieldElement::one(),
            T: self.x.mul(&self.y),
        }
    }
}

/// A point in extended homogeneous coordinates.
#[derive(Clone, Copy, Debug)]
#[allow(non_snake_case)]
pub struct ExtendedPoint {
    pub X: FieldElement,
    pub Y: FieldElement,
    pub Z: FieldElement,
    pub T: FieldElement,
}

/// A 57-byte compressed point: 56 little-endian bytes of `y`, then the sign
/// of `x` in bit 7 of the last byte.
pub struct CompressedEdwardsY(pub [u8; 57]);

/// The Montgomery u-coordinate of a point, as 56 little-endian bytes.
pub struct MontgomeryPoint(pub [u8; 56]);

impl View for ExtendedPoint {
    type V = (int, int, int, int);

    open spec fn view(&self) -> (int, int, int, int) {
        (self.X@, self.Y@, self.Z@, self.T@)
    }
}

impl ExtendedPoint {
    /// The identity point `(0 : 1 : 1 : 0)`.
    pub fn identity() -> (r: ExtendedPoint)
        ensures
            r@ == id_spec(),
    {
        ExtendedPoint {
            X: FieldElement::zero(),
            Y: FieldElement::one(),
            Z: FieldElement::one(),
            T: FieldElement::zero(),
        }
    }

    /// The generator of the group.
    pub fn generator() -> (r: ExtendedPoint)
        ensures
            r@ == (generator_x(), generator_y(), 1int, fmul(generator_x(), generator_y())),
    {
        let xl: [u64; 8] = [
            0x26a82bc70cc05e,
            0x80e18b00938e26,
            0xf72ab66511433b,
            0xa3d3a46412ae1a,
            0xf1767ea6de324,
            0x36da9e14657047,
            0xed221d15a622bf,
            0x4f1970c66bed0d,
        ];
        let yl: [u64; 8] = [
            0x8795bf230fa14,
            0x132c4ed7c8ad98,
            0x1ce67c39c4fdbd,
            0x5a0c2d73ad3ff,
            0xa3984087789c1e,
            0xc7624bea73736c,
            0x248876203756c9,
            0x693f46716eb6bc,
        ];
        let gx = FieldElement::from_limbs(xl);
        let gy = FieldElement::from_limbs(yl);
        proof {
            lemma_val56_len8(xl@);
            lemma_val56_len8(yl@);
            assert(val56(xl@) == generator_x());
            assert(val56(yl@) == generator_y());
            lemma_small_mod(generator_x() as nat, p() as nat);
            lemma_small_mod(generator_y() as nat, p() as nat);
        }
        AffinePoint { x: gx, y: gy }.to_extended()
    }

    /// Constant-time selection, field coordinate by field coordinate.
    pub fn conditional_select(a: &ExtendedPoint, b: &ExtendedPoint, choice: bool) -> (r:
        ExtendedPoint)
        ensures
            r == (if choice {
                *b
            } else {
                *a
            }),
    {
        ExtendedPoint {
            X: fe_select(&a.X, &b.X, choice),
            Y: fe_select(&a.Y, &b.Y, choice),
            Z: fe_select(&a.Z, &b.Z, choice),
            T: fe_select(&a.T, &b.T, choice),
        }
    }

    /// Projective equality by cross-multiplication, evaluated in constant
    /// time over the canonical encodings.
    pub fn ct_eq(&self, other: &ExtendedPoint) -> (r: bool)
        ensures
            r == ed_eq_spec(self@, other@),
    {
        let xz = self.X.mul(&other.Z);
        let zx = self.Z.mul(&other.X);
        let yz = self.Y.mul(&other.Z);
        let zy = self.Z.mul(&other.Y);
        let ex = xz == zx;
        let ey = yz == zy;
        ex && ey
    }

    /// Whether this point is the identity of the group.
    pub fn is_identity(&self) -> (r: bool)
        ensures
            r == ed_eq_spec(self@, id_spec()),
    {
        self.ct_eq(&ExtendedPoint::identity())
    }

    /// Unified addition.
    pub fn add(&self, other: &ExtendedPoint) -> (r: ExtendedPoint)
        ensures
            r@ == ed_add_spec(self@, other@),
    {
        let aXX = self.X.mul(&other.X);
        let dTT = FieldElement::edwards_d().mul(&self.T).mul(&other.T);
        let ZZ = self.Z.mul(&other.Z);
        let YY = self.Y.mul(&other.Y);
        let e = self.X.mul(&other.Y).add(&self.Y.mul(&other.X));
        let f = ZZ.sub(&dTT);
        let g = ZZ.add(&dTT);
        let h = YY.sub(&aXX);
        ExtendedPoint { X: e.mul(&f), Y: h.mul(&g), Z: f.mul(&g), T: h.mul(&e) }
    }

    /// Doubling, as the unified sum of the point with itself.
    pub fn double(&self) -> (r: ExtendedPoint)
        ensures
            r@ == ed_add_spec(self@, self@),
    {
        self.add(self)
    }

    /// Negation `(-X : Y : Z : -T)`.
    pub fn negate(&self) -> (r: ExtendedPoint)
        ensures
            r@ == (fneg(self@.0), self@.1, self@.2, fneg(self@.3)),
    {
        ExtendedPoint { X: self.X.negate(), Y: self.Y, Z: self.Z, T: self.T.negate() }
    }

    /// Adds the 2-torsion point: `(-X : -Y : Z : T)`.
    pub fn torque(&self) -> (r: ExtendedPoint)
        ensures
            r@ == (fneg(self@.0), fneg(self@.1), self@.2, self@.3),
    {
        ExtendedPoint { X: self.X.negate(), Y: self.Y.negate(), Z: self.Z, T: self.T }
    }

    /// The curve-membership check.
    pub fn is_on_curve(&self) -> (r: bool)
        ensures
            r == on_curve_spec(self@),
    {
        let xy = self.X.mul(&self.Y);
        let zt = self.Z.mul(&self.T);
        let yy = self.Y.square();
        let xx = self.X.square();
        let zz = self.Z.square();
        let tt = self.T.square();
        let lhs = yy.add(&xx);
        let rhs = zz.add(&tt.mul(&FieldElement::edwards_d()));
        let e1 = xy == zt;
        let e2 = lhs == rhs;
        e1 && e2
    }

    /// The affine form `(X/Z, Y/Z)`.
    pub fn to_affine(&self) -> (r: AffinePoint)
        ensures
            r.x@ == affine_of(self@).0,
            r.y@ == affine_of(self@).1,
    {
        let inv_z = self.Z.invert();
        AffinePoint { x: self.X.mul(&inv_z), y: self.Y.mul(&inv_z) }
    }

    /// The 4-isogeny to the twisted curve, computed on affine coordinates
    /// with `a = 1`.
    fn edwards_isogeny(&self, a: &FieldElement) -> (r: TwistedExtendedPoint)
        ensures
            r@ == isogeny_spec(self@, a@),
    {
        let affine = self.to_affine();
        let x = affine.x;
        let y = affine.y;
        let xy = x.mul(&y);
        let x_num = xy.add(&xy);
        let x_denom = y.square().sub(&a.mul(&x.square()));
        let new_x = x_num.mul(&x_denom.invert());
        let y_num = y.square().add(&a.mul(&x.square()));
        let y_denom = FieldElement::one().add(&FieldElement::one()).sub(&y.square()).sub(
            &a.mul(&x.square()),
        );
        let new_y = y_num.mul(&y_denom.invert());
        TwistedExtendedPoint {
            X: new_x,
            Y: new_y,
            Z: FieldElement::one(),
            T: new_x.mul(&new_y),
        }
    }

    /// Carries the point to the 4-isogenous twisted curve.
    pub fn to_twisted(&self) -> (r: TwistedExtendedPoint)
        ensures
            r@ == isogeny_spec(self@, 1),
    {
        self.edwards_isogeny(&FieldElement::one())
    }

    /// The Montgomery u-coordinate `y^2 (1 - d y^2) / (1 - y^2)` of the
    /// point, encoded in 56 little-endian bytes.
    pub fn to_montgomery(&self) -> (r: MontgomeryPoint)
        ensures
            le_val(r.0@) == ({
                let y = affine_of(self@).1;
                let yy = fmul(y, y);
                fmul(fmul(yy, fsub(1, fmul(p() - 39081, yy))), finv(fsub(1, yy)))
            }),
    {
        let affine = self.to_affine();
        let yy = affine.y.square();
        let dyy = FieldElement::edwards_d().mul(&yy);
        let u = yy.mul(&FieldElement::one().sub(&dyy)).mul(
            &FieldElement::one().sub(&yy).invert(),
        );
        MontgomeryPoint(u.to_bytes())
    }

    /// Constant-time `(s mod 4) * P`, selected from the four possible
    /// multiples.
    pub fn scalar_mod_four(&self, scalar: &Scalar) -> (r: ExtendedPoint)
        ensures
            r@ == residue_spec(self@, scalar@ % 4),
    {
        let m = scalar.mod_four();
        proof {
            crate::scalar::lemma_scalar_range(*scalar);
            lemma_mod_division_less_than_divisor(scalar@, 4);
        }
        let zero_p = ExtendedPoint::identity();
        let one_p = *self;
        let two_p = one_p.double();
        let three_p = two_p.add(self);
        let mut result = ExtendedPoint::identity();
        result = ExtendedPoint::conditional_select(&result, &zero_p, m == 0);
        result = ExtendedPoint::conditional_select(&result, &one_p, m == 1);
        result = ExtendedPoint::conditional_select(&result, &two_p, m == 2);
        result = ExtendedPoint::conditional_select(&result, &three_p, m == 3);
        result
    }

    /// Scalar multiplication `s * P`: the twisted-curve ladder on
    /// `floor(s/4)` carried back through the dual isogeny, plus the residue
    /// multiple `(s mod 4) * P`.
    pub fn scalar_mul(&self, scalar: &Scalar) -> (r: ExtendedPoint)
        ensures
            r@ == scalar_mul_spec(self@, scalar@),
    {
        let scalar_div_four = scalar.div_by_four();
        proof {
            crate::scalar::lemma_scalar_range(*scalar);
        }
        let partial_result = crate::twisted::variable_base(
            &self.to_twisted(),
            &scalar_div_four,
        ).to_untwisted();
        partial_result.add(&self.scalar_mod_four(scalar))
    }

    /// Whether the point lies in the prime-order subgroup: `ell * P` is the
    /// identity, for `ell` the basepoint order.
    pub fn is_torsion_free(&self) -> (r: bool)
        ensures
            r == ed_eq_spec(scalar_mul_spec(self@, basepoint_order()), id_spec()),
    {
        let prod = self.scalar_mul(&Scalar::order());
        prod.ct_eq(&ExtendedPoint::identity())
    }

    /// The 57-byte compressed form: `y` little-endian, then the sign of `x`
    /// in bit 7.
    pub fn compress(&self) -> (r: CompressedEdwardsY)
        ensures
            r.0@.len() == 57,
            le_val(r.0@.subrange(0, 56)) == affine_of(self@).1,
            r.0@[56] == (if affine_of(self@).0 % 2 == 1 {
                0x80u8
            } else {
                0u8
            }),
    {
        let affine = self.to_affine();
        let sign = affine.x.is_negative();
        let y_bytes = affine.y.to_bytes();
        let mut out = [0u8; 57];
        let mut i: usize = 0;
        while i < 56
            invariant
                0 <= i <= 56,
                out@.len() == 57,
                forall|j: int| 0 <= j < i ==> out@[j] == y_bytes@[j],
            decreases 56 - i,
        {
            out[i] = y_bytes[i];
            i += 1;
        }
        out[56] = if sign {
            0x80
        } else {
            0
        };
        proof {
            assert(out@.subrange(0, 56) =~= y_bytes@);
        }
        CompressedEdwardsY(out)
    }
}

impl Default for ExtendedPoint {
    /// The identity point.
    fn default() -> (r: ExtendedPoint)
        ensures
            r@ == id_spec(),
    {
        ExtendedPoint::identity()
    }
}

impl PartialEq for ExtendedPoint {
    /// Projective equality.
    fn eq(&self, other: &ExtendedPoint) -> (r: bool) {
        self.ct_eq(other)
    }
}

impl Eq for ExtendedPoint {

}

impl vstd::std_specs::cmp::PartialEqSpecImpl for ExtendedPoint {
    open spec fn obeys_eq_spec() -> bool {
        true
    }

    open spec fn eq_spec(&self, other: &ExtendedPoint) -> bool {
        ed_eq_spec(self@, other@)
    }
}

impl CompressedEdwardsY {
    /// Decodes the 57 bytes: parses `y`, recovers `x` up to sign by the
    /// square root of `(1 - y^2)/(1 - d y^2)`, fixes the sign to the encoded
    /// bit, and returns the lifted point; empty exactly when the square-root
    /// candidate fails, i.e. when no curve point has the encoded `y`.
    /// Bits 0 through 6 of the final byte are ignored.
    pub fn decompress(&self) -> (r: Option<ExtendedPoint>)
        ensures
            r.is_some() == decomp_ok(self.0@),
            r.is_some() ==> r.unwrap()@ == (
                decomp_x(self.0@),
                decomp_y(self.0@),
                1int,
                fmul(decomp_x(self.0@), decomp_y(self.0@)),
            ),
    {
        let sign_byte = self.0[56];
        let sign = (sign_byte >> 7) == 1;
        proof {
            vstd::bits::lemma_u8_shr_is_div(sign_byte, 7);
            assert(vstd::arithmetic::power2::pow2(7) == 128) by {
                vstd::arithmetic::power2::lemma2_to64();
            }
        }
        let mut y_bytes = [0u8; 56];
        let mut i: usize = 0;
        while i < 56
            invariant
                0 <= i <= 56,
                forall|j: int| 0 <= j < i ==> y_bytes@[j] == self.0@[j],
            decreases 56 - i,
        {
            y_bytes[i] = self.0[i];
            i += 1;
        }
        proof {
            assert(y_bytes@ =~= self.0@.subrange(0, 56));
        }
        let y = FieldElement::from_bytes(&y_bytes);
        let yy = y.square();
        let dyy = FieldElement::edwards_d().mul(&yy);
        let numerator = FieldElement::one().sub(&yy);
        let denominator = FieldElement::one().sub(&dyy);
        let x0 = numerator.mul(&denominator.invert()).sqrt_candidate();
        let ok = x0.square().mul(&denominator) == numerator;
        let is_neg = x0.is_negative();
        let negated = x0.negate();
        let x = fe_select(&x0, &negated, sign != is_neg);
        let point = AffinePoint { x, y }.to_extended();
        if ok {
            Some(point)
        } else {
            None
        }
    }
}

} // verus!
