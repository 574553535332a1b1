//! Group laws that the coordinate-level contracts entail. Equality of
//! points is projective equality `ed_eq_spec`; the laws that depend on
//! deeper algebraic facts about the curve (associativity, the full scalar
//! ring action, completeness of the square-root search) are exercised by
//! tests instead, since their proofs need number theory beyond the
//! contracts stated here.

use vstd::prelude::*;
use vstd::arithmetic::mul::{lemma_mul_basics, lemma_mul_is_associative, lemma_mul_is_distributive_sub};
use vstd::arithmetic::power::{lemma1_pow, pow};
use vstd::arithmetic::div_mod::{
    lemma_add_mod_noop_right, lemma_mod_division_less_than_divisor, lemma_mul_mod_noop_general,
    lemma_small_mod, lemma_sub_mod_noop_right,
};
use crate::field::{fadd, fsub, fmul, fneg, finv, p};
use crate::extended::{
    affine_of, decomp_candidate, decomp_ok, decomp_sign, decomp_x, decomp_y, ed_add_spec,
    ed_eq_spec, id_spec, isogeny_spec, on_curve_spec, residue_spec, scalar_mul_spec,
    ExtendedPoint,
};
use crate::limbs::{le_val, lemma_le_val_nonneg};
use crate::scalar::basepoint_order;
use crate::twisted::{lemma_tw_ladder_id, tw_id_spec, tw_ladder};

verus! {

/// Field values lie in `[0, p)`.
proof fn lemma_fmod_range(a: int)
    ensures
        0 <= a % p() < p(),
{
    lemma_mod_division_less_than_divisor(a, p());
}

/// Multiplication mod p commutes.
proof fn lemma_fmul_comm(a: int, b: int)
    ensures
        fmul(a, b) == fmul(b, a),
{
}

/// Multiplication mod p associates.
proof fn lemma_fmul_assoc(a: int, b: int, c: int)
    ensures
        fmul(fmul(a, b), c) == fmul(a, fmul(b, c)),
{
    lemma_mul_mod_noop_general(a * b, c, p());
    lemma_mul_mod_noop_general(a, b * c, p());
    lemma_mul_is_associative(a, b, c);
}

/// One and zero act as usual on reduced values.
proof fn lemma_fmul_units(a: int)
    requires
        0 <= a < p(),
    ensures
        fmul(a, 1) == a,
        fmul(1, a) == a,
        fmul(a, 0) == 0,
        fmul(0, a) == 0,
{
    lemma_mul_basics(a);
    lemma_small_mod(a as nat, p() as nat);
    lemma_small_mod(0, p() as nat);
}

/// A negated factor pulls the negation out of the product.
proof fn lemma_fmul_neg(a: int, b: int)
    ensures
        fmul(a, fneg(b)) == fneg(fmul(a, b)),
{
    lemma_mul_mod_noop_general(a, 0 - b, p());
    lemma_sub_mod_noop_right(0, a * b, p());
    lemma_mul_is_distributive_sub(a, 0, b);
}

/// An element plus its negation vanishes.
proof fn lemma_fadd_fneg(a: int)
    ensures
        fadd(a, fneg(a)) == 0,
{
    lemma_add_mod_noop_right(a, 0 - a, p());
    lemma_small_mod(0, p() as nat);
}

/// Subtracting a negation is adding.
proof fn lemma_fsub_fneg(a: int, b: int)
    ensures
        fsub(a, fneg(b)) == fadd(a, b),
{
    lemma_sub_mod_noop_right(a, 0 - b, p());
}

/// The inverse map fixes one: `finv(1) = 1`.
proof fn lemma_finv_one()
    ensures
        finv(1) == 1,
{
    lemma1_pow((p() - 2) as nat);
    lemma_small_mod(1, p() as nat);
}

/// The identity tuple absorbs the unified addition exactly.
proof fn lemma_ed_add_id_id()
    ensures
        ed_add_spec(id_spec(), id_spec()) == id_spec(),
{
    lemma_small_mod(0, p() as nat);
    lemma_small_mod(1, p() as nat);
}

/// Both isogenies fix the identity: the twisted image of `(0, 1)` is the
/// twisted identity, and its preimage is the identity.
proof fn lemma_isogeny_id(a: int)
    ensures
        isogeny_spec(id_spec(), a) == tw_id_spec(),
{
    lemma_small_mod(0, p() as nat);
    lemma_small_mod(1, p() as nat);
    lemma_small_mod(2, p() as nat);
    lemma_finv_one();
    let x = affine_of(id_spec()).0;
    let y = affine_of(id_spec()).1;
    assert(x == 0 && y == 1);
    assert(fmul(a, fmul(0, 0)) == 0) by {
        lemma_small_mod(0, p() as nat);
        lemma_mul_basics(a);
    }
    assert(fsub(fsub(fadd(1, 1), fmul(1, 1)), 0) == 1);
}

/// Adding the identity on either side returns the same projective point:
/// `P + O = P` and `O + P = P`.
pub proof fn lemma_add_identity(pt: ExtendedPoint)
    ensures
        ed_eq_spec(ed_add_spec(pt@, id_spec()), pt@),
        ed_eq_spec(ed_add_spec(id_spec(), pt@), pt@),
{
    crate::field::lemma_fe_range(pt.X);
    crate::field::lemma_fe_range(pt.Y);
    crate::field::lemma_fe_range(pt.Z);
    crate::field::lemma_fe_range(pt.T);
    lemma_add_identity_tuple(pt@);
}

/// The tuple-level form of the identity law, for any reduced coordinates.
proof fn lemma_add_identity_tuple(t: (int, int, int, int))
    requires
        0 <= t.0 < p(),
        0 <= t.1 < p(),
        0 <= t.2 < p(),
        0 <= t.3 < p(),
    ensures
        ed_eq_spec(ed_add_spec(t, id_spec()), t),
        ed_eq_spec(ed_add_spec(id_spec(), t), t),
{
    let x = t.0;
    let y = t.1;
    let z = t.2;
    let tt = t.3;
    lemma_small_mod(x as nat, p() as nat);
    lemma_small_mod(y as nat, p() as nat);
    lemma_small_mod(z as nat, p() as nat);
    lemma_small_mod(tt as nat, p() as nat);
    lemma_fmul_units(x);
    lemma_fmul_units(y);
    lemma_fmul_units(z);
    lemma_fmul_units(fmul(p() - 39081, tt));
    lemma_fmul_units(fmul(p() - 39081, 0));
    lemma_fmod_range(fmul(p() - 39081, tt) * 0);
    lemma_small_mod(0, p() as nat);
    // P + O has coordinates (x z, y z, z z, y x) up to the mods.
    let r = ed_add_spec(t, id_spec());
    assert(fmul(fmul(p() - 39081, tt), 0) == 0) by {
        lemma_fmul_units(fmul(p() - 39081, tt) % p());
        lemma_mul_mod_noop_general(fmul(p() - 39081, tt), 0, p());
    }
    assert(fadd(fmul(x, 1), fmul(y, 0)) == x);
    assert(fsub(fmul(z, 1), 0) == z && fadd(fmul(z, 1), 0) == z) by {
        lemma_small_mod(z as nat, p() as nat);
    }
    assert(fsub(fmul(y, 1), fmul(x, 0)) == y) by {
        lemma_small_mod(y as nat, p() as nat);
    }
    assert(r == (fmul(x, z), fmul(y, z), fmul(z, z), fmul(y, x)));
    assert(fmul(fmul(x, z), z) == fmul(x, fmul(z, z))) by {
        lemma_fmul_assoc(x, z, z);
    }
    assert(fmul(fmul(y, z), z) == fmul(y, fmul(z, z))) by {
        lemma_fmul_assoc(y, z, z);
    }
    // O + P is symmetric.
    let l = ed_add_spec(id_spec(), t);
    assert(fmul(fmul(p() - 39081, 0), tt) == 0) by {
        lemma_fmul_units(0);
        lemma_mul_mod_noop_general(fmul(p() - 39081, 0), tt, p());
        lemma_fmul_units(tt);
    }
    assert(fadd(fmul(0, y), fmul(1, x)) == x);
    assert(fsub(fmul(1, y), fmul(0, x)) == y);
    assert(l == (fmul(x, z), fmul(y, z), fmul(z, z), fmul(y, x)));
}

/// A point plus its negation is the identity: `P + (-P) = O`, for points on
/// the curve.
pub proof fn lemma_add_inverse(pt: ExtendedPoint)
    requires
        on_curve_spec(pt@),
    ensures
        ed_eq_spec(
            ed_add_spec(pt@, (fneg(pt@.0), pt@.1, pt@.2, fneg(pt@.3))),
            id_spec(),
        ),
{
    let x = pt@.0;
    let y = pt@.1;
    let z = pt@.2;
    let t = pt@.3;
    let d = p() - 39081;
    let r = ed_add_spec(pt@, (fneg(x), y, z, fneg(t)));
    crate::field::lemma_fe_range(pt.X);
    crate::field::lemma_fe_range(pt.Y);
    crate::field::lemma_fe_range(pt.Z);
    crate::field::lemma_fe_range(pt.T);
    lemma_small_mod(0, p() as nat);
    lemma_small_mod(1, p() as nat);
    // The cross term X1 Y2 + Y1 X2 collapses to w + (-w) = 0.
    assert(fmul(y, fneg(x)) == fneg(fmul(y, x))) by {
        lemma_fmul_neg(y, x);
    }
    assert(fmul(x, y) == fmul(y, x));
    assert(fadd(fmul(x, y), fmul(y, fneg(x))) == 0) by {
        lemma_fadd_fneg(fmul(x, y));
    }
    // So the X coordinate of the sum is zero.
    assert(r.0 == fmul(0, fsub(fmul(z, z), fmul(fmul(d, t), fneg(t)))));
    lemma_fmod_range(0 * fsub(fmul(z, z), fmul(fmul(d, t), fneg(t))));
    assert(r.0 == 0);
    // Y3 and Z3 share the factor (ZZ + dTT); their other factors agree by
    // the curve equation.
    let dtt = fmul(fmul(d, t), fneg(t));
    assert(dtt == fneg(fmul(fmul(d, t), t))) by {
        lemma_fmul_neg(fmul(d, t), t);
    }
    let axx = fmul(x, fneg(x));
    assert(axx == fneg(fmul(x, x))) by {
        lemma_fmul_neg(x, x);
    }
    let h = fsub(fmul(y, y), axx);
    assert(h == fadd(fmul(y, y), fmul(x, x))) by {
        lemma_fsub_fneg(fmul(y, y), fmul(x, x));
    }
    let f = fsub(fmul(z, z), dtt);
    assert(f == fadd(fmul(z, z), fmul(fmul(d, t), t))) by {
        lemma_fsub_fneg(fmul(z, z), fmul(fmul(d, t), t));
    }
    // fmul(fmul(t, t), d) of the curve equation is fmul(fmul(d, t), t).
    assert(fmul(fmul(t, t), d) == fmul(fmul(d, t), t)) by {
        lemma_fmul_assoc(t, t, d);
        lemma_fmul_comm(t, fmul(t, d));
        lemma_fmul_comm(t, d);
        lemma_fmul_assoc(d, t, t);
        lemma_fmul_comm(d, t);
        assert(fmul(fmul(t, t), d) == fmul(t, fmul(t, d)));
        assert(fmul(t, fmul(t, d)) == fmul(t, fmul(d, t)));
        assert(fmul(t, fmul(d, t)) == fmul(fmul(t, d), t)) by {
            lemma_fmul_assoc(t, d, t);
        }
        assert(fmul(fmul(t, d), t) == fmul(fmul(d, t), t));
    }
    assert(h == f);
    // So Y3 == Z3, and the result equals the identity projectively.
    assert(r.1 == fmul(h, fadd(fmul(z, z), dtt)));
    assert(r.2 == fmul(f, fadd(fmul(z, z), dtt)));
    assert(fmul(r.0, 1) == 0) by {
        lemma_fmul_units(0);
    }
    assert(fmul(0, r.2) == 0) by {
        lemma_fmod_range(0 * r.2);
    }
    assert(fmul(r.1, 1) == r.1) by {
        lemma_fmod_range(h * fadd(fmul(z, z), dtt));
        lemma_fmul_units(r.1);
    }
    assert(fmul(1, r.2) == r.2) by {
        lemma_fmod_range(f * fadd(fmul(z, z), dtt));
        lemma_fmul_units(r.2);
    }
}

/// Addition is commutative on the nose: both orders give the same
/// coordinate tuple.
pub proof fn lemma_add_commutes(pt: ExtendedPoint, qt: ExtendedPoint)
    ensures
        ed_add_spec(pt@, qt@) == ed_add_spec(qt@, pt@),
{
    let d = p() - 39081;
    let t1 = pt@.3;
    let t2 = qt@.3;
    lemma_fmul_comm(pt@.0, qt@.0);
    lemma_fmul_comm(pt@.1, qt@.1);
    lemma_fmul_comm(pt@.2, qt@.2);
    lemma_fmul_comm(pt@.0, qt@.1);
    lemma_fmul_comm(pt@.1, qt@.0);
    assert(fmul(fmul(d, t1), t2) == fmul(fmul(d, t2), t1)) by {
        lemma_fmul_assoc(d, t1, t2);
        lemma_fmul_comm(t1, t2);
        lemma_fmul_assoc(d, t2, t1);
    }
}

/// Multiplying by the zero scalar gives the identity: `[0] P = O`.
pub proof fn lemma_scalar_zero(pt: ExtendedPoint)
    ensures
        ed_eq_spec(scalar_mul_spec(pt@, 0), id_spec()),
{
    lemma_isogeny_id(p() - 1);
    lemma_ed_add_id_id();
    lemma_untwist_id();
    lemma_small_mod(0, p() as nat);
    lemma_small_mod(1, p() as nat);
    assert(tw_ladder(isogeny_spec(pt@, 1), 0) == tw_id_spec());
    assert(scalar_mul_spec(pt@, 0) == ed_add_spec(id_spec(), id_spec()));
}

/// The dual isogeny fixes the identity of the twisted curve.
proof fn lemma_untwist_id()
    ensures
        isogeny_spec(tw_id_spec(), p() - 1) == id_spec(),
{
    lemma_small_mod(0, p() as nat);
    lemma_small_mod(1, p() as nat);
    lemma_small_mod(2, p() as nat);
    lemma_finv_one();
    assert(fmul(p() - 1, fmul(0, 0)) == 0);
    assert(fsub(fsub(fadd(1, 1), fmul(1, 1)), 0) == 1);
}

/// Multiplying by two is doubling: `[2] P = P + P = double(P)`.
pub proof fn lemma_scalar_two(pt: ExtendedPoint)
    ensures
        ed_eq_spec(scalar_mul_spec(pt@, 2), ed_add_spec(pt@, pt@)),
{
    lemma_isogeny_id(p() - 1);
    lemma_untwist_id();
    assert(2int / 4 == 0 && 2int % 4 == 2);
    assert(tw_ladder(isogeny_spec(pt@, 1), 0) == tw_id_spec());
    assert(scalar_mul_spec(pt@, 2) == ed_add_spec(id_spec(), ed_add_spec(pt@, pt@)));
    let dp = ed_add_spec(pt@, pt@);
    lemma_ed_add_bounds(pt@, pt@);
    lemma_add_identity_tuple(dp);
}

/// The coordinates produced by the unified addition are reduced.
proof fn lemma_ed_add_bounds(a: (int, int, int, int), b: (int, int, int, int))
    ensures
        0 <= ed_add_spec(a, b).0 < p(),
        0 <= ed_add_spec(a, b).1 < p(),
        0 <= ed_add_spec(a, b).2 < p(),
        0 <= ed_add_spec(a, b).3 < p(),
{
    let axx = fmul(a.0, b.0);
    let dtt = fmul(fmul(p() - 39081, a.3), b.3);
    let zz = fmul(a.2, b.2);
    let yy = fmul(a.1, b.1);
    let e = fadd(fmul(a.0, b.1), fmul(a.1, b.0));
    lemma_fmod_range(e * fsub(zz, dtt));
    lemma_fmod_range(fsub(yy, axx) * fadd(zz, dtt));
    lemma_fmod_range(fsub(zz, dtt) * fadd(zz, dtt));
    lemma_fmod_range(fsub(yy, axx) * e);
}

/// Negation of a nonzero reduced value is `p - c`.
proof fn lemma_fneg_value(c: int)
    requires
        0 < c < p(),
    ensures
        fneg(c) == p() - c,
{
    vstd::arithmetic::div_mod::lemma_mod_add_multiples_vanish(0 - c, p());
    lemma_small_mod((p() - c) as nat, p() as nat);
}

/// Recompressing an accepted canonical encoding reproduces it: the `y` the
/// decompressed point encodes is the byte value itself, and its `x` has the
/// encoded sign, so `compress` emits the same 56 value bytes (byte strings
/// of one value being unique) and the same sign byte. Canonical means the
/// value bytes are reduced, the unused bits of the final byte are clear,
/// and the sign bit is not set on an encoding whose `x` is zero.
pub proof fn lemma_decompress_then_compress(b: Seq<u8>)
    requires
        b.len() == 57,
        decomp_ok(b),
        le_val(b.subrange(0, 56)) < p(),
        b[56] == 0 || b[56] == 0x80,
        !(decomp_sign(b) && decomp_candidate(b) == 0),
    ensures
        affine_of((decomp_x(b), decomp_y(b), 1int, fmul(decomp_x(b), decomp_y(b)))).1 == le_val(
            b.subrange(0, 56),
        ),
        affine_of((decomp_x(b), decomp_y(b), 1int, fmul(decomp_x(b), decomp_y(b)))).0 % 2 == 1
            <==> decomp_sign(b),
        forall|out: Seq<u8>|
            out.len() == 56 && le_val(out) == affine_of(
                (decomp_x(b), decomp_y(b), 1int, fmul(decomp_x(b), decomp_y(b))),
            ).1 ==> out =~= b.subrange(0, 56),
{
    assert forall|out: Seq<u8>|
        out.len() == 56 && le_val(out) == le_val(b.subrange(0, 56)) implies out =~= b.subrange(
        0,
        56,
    ) by {
        crate::limbs::lemma_le_val_injective(out, b.subrange(0, 56));
    }
    let y = decomp_y(b);
    let c = decomp_candidate(b);
    let x = decomp_x(b);
    lemma_le_val_nonneg(b.subrange(0, 56));
    lemma_small_mod(le_val(b.subrange(0, 56)) as nat, p() as nat);
    assert(y == le_val(b.subrange(0, 56)));
    lemma_finv_one();
    lemma_fmod_range(
        pow(
            fmul(fsub(1, fmul(y, y)), finv(fsub(1, fmul(p() - 39081, fmul(y, y))))),
            ((p() + 1) / 4) as nat,
        ),
    );
    assert(0 <= c < p());
    lemma_fmod_range(0 - c);
    assert(0 <= x < p());
    lemma_fmul_units(y);
    lemma_fmul_units(x);
    if decomp_sign(b) != (c % 2 == 1) {
        assert(x == fneg(c));
        if c == 0 {
            assert(!decomp_sign(b));
            assert(fneg(0) == 0) by {
                lemma_small_mod(0, p() as nat);
            }
        } else {
            lemma_fneg_value(c);
            assert(x == p() - c);
            assert(x % 2 == 1 <==> c % 2 == 0);
        }
    }
}

/// Negation is an involution on reduced values.
proof fn lemma_fneg_invol(a: int)
    requires
        0 <= a < p(),
    ensures
        fneg(fneg(a)) == a,
{
    lemma_small_mod(0, p() as nat);
    if a != 0 {
        lemma_fneg_value(a);
        lemma_fneg_value(p() - a);
    }
}

/// Every accepted encoding decodes to a point on the curve: the square-root
/// check `x^2 (1 - d y^2) = 1 - y^2` is the curve equation
/// `y^2 + x^2 = 1 + d x^2 y^2` rearranged.
pub proof fn lemma_decompress_on_curve(b: Seq<u8>)
    requires
        b.len() == 57,
        decomp_ok(b),
    ensures
        on_curve_spec((decomp_x(b), decomp_y(b), 1int, fmul(decomp_x(b), decomp_y(b)))),
{
    let d = p() - 39081;
    let y = decomp_y(b);
    let c = decomp_candidate(b);
    let x = decomp_x(b);
    lemma_fmod_range(le_val(b.subrange(0, 56)));
    lemma_fmod_range(
        pow(
            fmul(fsub(1, fmul(y, y)), finv(fsub(1, fmul(p() - 39081, fmul(y, y))))),
            ((p() + 1) / 4) as nat,
        ),
    );
    assert(0 <= c < p());
    lemma_fmod_range(0 - c);
    assert(0 <= x < p());
    // x^2 = c^2 whichever sign was chosen.
    assert(fmul(x, x) == fmul(c, c)) by {
        if x != c {
            assert(x == fneg(c));
            lemma_fmul_neg(fneg(c), c);
            lemma_fmul_comm(fneg(c), c);
            lemma_fmul_neg(c, c);
            lemma_fmod_range(c * c);
            lemma_fneg_invol(fmul(c, c));
        }
    }
    let c2 = fmul(c, c);
    let y2 = fmul(y, y);
    // Unfold the accepted check into one congruence without inner mods.
    assert(fmul(c2, fsub(1, fmul(d, y2))) == (c * c * (1 - d * (y * y))) % p()) by {
        lemma_mul_mod_noop_general(d, y * y, p());
        assert(fmul(d, y2) == (d * (y * y)) % p());
        lemma_sub_mod_noop_right(1, d * (y * y), p());
        assert(fsub(1, fmul(d, y2)) == (1 - d * (y * y)) % p());
        lemma_mul_mod_noop_general(c * c, (1 - d * (y * y)) % p(), p());
        lemma_mul_mod_noop_general(c * c, 1 - d * (y * y), p());
    }
    assert(fsub(1, y2) == (1 - y * y) % p()) by {
        lemma_sub_mod_noop_right(1, y * y, p());
    }
    assert((c * c * (1 - d * (y * y))) % p() == (1 - y * y) % p());
    // Add y^2 + c^2 d y^2 to both sides of the congruence.
    let k = y * y + c * c * (d * (y * y));
    assert(c * c * (1 - d * (y * y)) + k == c * c + y * y) by (nonlinear_arith)
        requires
            k == y * y + c * c * (d * (y * y)),
    ;
    assert((1 - y * y) + k == 1 + c * c * (d * (y * y))) by (nonlinear_arith)
        requires
            k == y * y + c * c * (d * (y * y)),
    ;
    assert((c * c + y * y) % p() == (1 + c * c * (d * (y * y))) % p()) by {
        lemma_add_mod_congruence(c * c * (1 - d * (y * y)), 1 - y * y, k);
    }
    // The left side is the reduced y^2 + x^2.
    assert(fadd(y2, fmul(x, x)) == (y * y + c * c) % p()) by {
        vstd::arithmetic::div_mod::lemma_add_mod_noop(y * y, c * c, p());
    }
    // The right side is 1 + d (x y)^2.
    let xy = fmul(x, y);
    assert(fmul(fmul(xy, xy), d) == (c * c * (d * (y * y))) % p()) by {
        lemma_mul_mod_noop_general(x * y, x * y, p());
        assert(fmul(xy, xy) == (x * y * (x * y)) % p());
        lemma_mul_mod_noop_general(x * y * (x * y), d, p());
        assert(fmul(fmul(xy, xy), d) == (x * y * (x * y) * d) % p());
        assert(x * y * (x * y) * d == x * x * (d * (y * y))) by (nonlinear_arith);
        lemma_mul_mod_congruence(x * x, c * c, d * (y * y));
    }
    assert(fadd(fmul(1, 1), fmul(fmul(xy, xy), d)) == (1 + c * c * (d * (y * y))) % p()) by {
        lemma_small_mod(1, p() as nat);
        vstd::arithmetic::div_mod::lemma_add_mod_noop_right(
            1,
            c * c * (d * (y * y)),
            p(),
        );
    }
    // Membership clause one: T really is X Y / Z with Z = 1.
    lemma_fmod_range(x * y);
    lemma_fmul_units(xy);
    lemma_fmul_units(fmul(x, y));
}

/// Congruent values stay congruent after adding the same amount.
proof fn lemma_add_mod_congruence(a: int, b: int, k: int)
    requires
        a % p() == b % p(),
    ensures
        (a + k) % p() == (b + k) % p(),
{
    vstd::arithmetic::div_mod::lemma_add_mod_noop(a, k, p());
    vstd::arithmetic::div_mod::lemma_add_mod_noop(b, k, p());
}

/// Congruent factors give congruent products.
proof fn lemma_mul_mod_congruence(a: int, b: int, m: int)
    requires
        a % p() == b % p(),
    ensures
        (a * m) % p() == (b * m) % p(),
{
    lemma_mul_mod_noop_general(a, m, p());
    lemma_mul_mod_noop_general(b, m, p());
}

/// The identity is torsion free: `[ell] O = O` for the basepoint order.
pub proof fn lemma_identity_torsion_free()
    ensures
        ed_eq_spec(scalar_mul_spec(id_spec(), basepoint_order()), id_spec()),
{
    lemma_isogeny_id(1);
    lemma_untwist_id();
    lemma_tw_ladder_id((basepoint_order() / 4) as nat);
    lemma_ed_add_id_id();
    lemma_small_mod(0, p() as nat);
    lemma_small_mod(1, p() as nat);
    assert(basepoint_order() % 4 == 3);
    assert(residue_spec(id_spec(), 3) == ed_add_spec(ed_add_spec(id_spec(), id_spec()), id_spec()));
    assert(scalar_mul_spec(id_spec(), basepoint_order()) == ed_add_spec(id_spec(), id_spec()));
}

} // verus!

