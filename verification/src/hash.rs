//! RFC 9380 hash-to-curve and encode-to-curve for Edwards448 with the
//! SHAKE256 expander: expand the message, reduce each 84-byte block to a
//! field element, map through Elligator2 onto the Montgomery curve, carry
//! the result through the 4-isogeny onto the Edwards curve, and clear the
//! cofactor.

use vstd::prelude::*;
use vstd::arithmetic::power2::{pow2, lemma_pow2_adds, lemma2_to64_rest};
use vstd::arithmetic::div_mod::{
    lemma_add_mod_noop, lemma_mod_multiples_vanish, lemma_mul_mod_noop_general, lemma_small_mod,
};
use elliptic_curve::hash2curve::{ExpandMsg, ExpandMsgXof, Expander};
use sha3::Shake256;
use crate::field::{fadd, fsub, fmul, fneg, finv, fsqrt, fe_select, p, FieldElement};
use crate::scalar::Scalar;
use crate::extended::{ed_add_spec, scalar_mul_spec, ExtendedPoint};
use crate::limbs::{
    be_val, le_val, lemma_le_val_nonneg, lemma_le_val_split, lemma_le_val_zero,
    lemma_reversed_le_is_be,
};

verus! {

/// What `expand_message_xof` with SHAKE256 returns for a message, domain
/// separation tag, and output length. The output depends on those three
/// arguments alone.
pub uninterp spec fn xof_expand(msg: Seq<u8>, dst: Seq<u8>, n: nat) -> Seq<u8>;

/// Relies on elliptic_curve's ExpandMsgXof with sha3's Shake256: the RFC
/// 9380 expand_message_xof output for one message and one domain tag, `n`
/// bytes of it. Fails only for an empty tag, a zero length, or a length
/// over 65535, all excluded here.
#[verifier::external_body]
fn expand_message_xof(msg: &[u8], dst: &[u8], n: usize) -> (r: Vec<u8>)
    requires
        0 < n <= 0xffff,
        dst@.len() > 0,
    ensures
        r@.len() == n,
        r@ == xof_expand(msg@, dst@, n as nat),
{
    let mut out = vec![0u8; n];
    let mut expander = ExpandMsgXof::<Shake256>::expand_message(&[msg], &[dst], n).unwrap();
    expander.fill_bytes(&mut out);
    out
}

/// The field element an 84-byte block reduces to: the block read as a
/// big-endian integer, mod p.
pub open spec fn okm_value(b: Seq<u8>) -> int {
    be_val(b) % p()
}

/// The Elligator2 map onto the Montgomery curve `v^2 = u^3 + J u^2 + u`
/// with `J = 156326` and the nonsquare `Z = -1`, following the straight
/// line of RFC 9380: the affine pair it produces for a field element.
pub open spec fn map_to_curve_spec(u: int) -> (int, int) {
    let t1 = fmul(fmul(u, u), p() - 1);
    let t1b = if t1 == p() - 1 {
        0
    } else {
        t1
    };
    let x1 = fmul(fneg(156326), finv(fadd(t1b, 1)));
    let gx1 = fmul(fadd(fmul(fadd(x1, 156326), x1), 1), x1);
    let x2 = fsub(fneg(x1), 156326);
    let gx2 = fmul(t1b, gx1);
    let e2 = fmul(fsqrt(gx1), fsqrt(gx1)) == gx1;
    let x = if e2 {
        x1
    } else {
        x2
    };
    let y2 = if e2 {
        gx1
    } else {
        gx2
    };
    let y = fsqrt(y2);
    let e3 = y % 2 == 1;
    let yf = if e2 != e3 {
        fneg(y)
    } else {
        y
    };
    (x, yf)
}

/// The 4-isogeny from the Montgomery curve to Edwards448 on an affine pair
/// `(u, v)`:
/// `x = 4v(u^2 - 1) / (u^4 - 2u^2 + 4v^2 + 1)`,
/// `y = -(u^5 - 2u^3 - 4uv^2 + u) / (u^5 - 2u^2 v^2 - 2u^3 - 2v^2 + u)`,
/// lifted to extended coordinates with `Z = 1`.
pub open spec fn iso448_spec(m: (int, int)) -> (int, int, int, int) {
    let u = m.0;
    let v = m.1;
    let u2 = fmul(u, u);
    let u3 = fmul(u2, u);
    let u4 = fmul(u2, u2);
    let u5 = fmul(u4, u);
    let v2 = fmul(v, v);
    let xn = fmul(fmul(4, v), fsub(u2, 1));
    let xd = fadd(fadd(fsub(u4, fadd(u2, u2)), fmul(4, v2)), 1);
    let yn = fneg(fadd(fsub(fsub(u5, fadd(u3, u3)), fmul(fmul(4, u), v2)), u));
    let yd = fadd(fsub(fsub(fsub(u5, fmul(fadd(u2, u2), v2)), fadd(u3, u3)), fadd(v2, v2)), u);
    let x = fmul(xn, finv(xd));
    let y = fmul(yn, finv(yd));
    (x, y, 1, fmul(x, y))
}

/// The full random-oracle construction: two field elements from 168
/// expanded bytes, two mapped points added, cofactor cleared.
pub open spec fn hash_spec(msg: Seq<u8>, dst: Seq<u8>) -> (int, int, int, int) {
    let bytes = xof_expand(msg, dst, 168);
    let u0 = okm_value(bytes.subrange(0, 84));
    let u1 = okm_value(bytes.subrange(84, 168));
    let q0 = iso448_spec(map_to_curve_spec(u0));
    let q1 = iso448_spec(map_to_curve_spec(u1));
    scalar_mul_spec(ed_add_spec(q0, q1), 4)
}

/// The nonuniform construction: one field element from 84 expanded bytes,
/// one mapped point, cofactor cleared.
pub open spec fn encode_spec(msg: Seq<u8>, dst: Seq<u8>) -> (int, int, int, int) {
    let bytes = xof_expand(msg, dst, 84);
    let u0 = okm_value(bytes);
    let q0 = iso448_spec(map_to_curve_spec(u0));
    scalar_mul_spec(q0, 4)
}

/// The default domain separation tag for `hash`,
/// `edwards448_XOF:SHAKE256_ELL2_RO_` in ASCII.
pub open spec fn default_hash_dst() -> Seq<u8> {
    seq![
        101u8, 100, 119, 97, 114, 100, 115, 52, 52, 56, 95, 88, 79, 70, 58, 83, 72, 65, 75, 69,
        50, 53, 54, 95, 69, 76, 76, 50, 95, 82, 79, 95,
    ]
}

/// The default domain separation tag for `encode`,
/// `edwards448_XOF:SHAKE256_ELL2_NU_` in ASCII.
pub open spec fn default_encode_dst() -> Seq<u8> {
    seq![
        101u8, 100, 119, 97, 114, 100, 115, 52, 52, 56, 95, 88, 79, 70, 58, 83, 72, 65, 75, 69,
        50, 53, 54, 95, 69, 76, 76, 50, 95, 78, 85, 95,
    ]
}

/// Reduces an 84-byte expander block to a field element: the block is a
/// big-endian integer `hi * 2^448 + lo`, and `2^448 = (2^224 + 1) mod p`
/// folds the high part in with one multiplication.
pub fn from_okm(b: &[u8; 84]) -> (r: FieldElement)
    ensures
        r@ == okm_value(b@),
{
    let mut lo_le = [0u8; 56];
    let mut i: usize = 0;
    while i < 56
        invariant
            0 <= i <= 56,
            forall|j: int| 0 <= j < i ==> lo_le@[j] == b@[83 - j],
        decreases 56 - i,
    {
        lo_le[i] = b[83 - i];
        i += 1;
    }
    let mut hi_le = [0u8; 56];
    let mut k: usize = 0;
    while k < 28
        invariant
            0 <= k <= 28,
            hi_le@.len() == 56,
            forall|j: int| 0 <= j < k ==> hi_le@[j] == b@[27 - j],
            forall|j: int| k <= j < 56 ==> hi_le@[j] == 0,
        decreases 28 - k,
    {
        hi_le[k] = b[27 - k];
        k += 1;
    }
    let lo_fe = FieldElement::from_bytes(&lo_le);
    let hi_fe = FieldElement::from_bytes(&hi_le);
    let c: [u64; 8] = [1, 0, 0, 0, 1, 0, 0, 0];
    let c_fe = FieldElement::from_limbs(c);
    let folded = hi_fe.mul(&c_fe).add(&lo_fe);
    proof {
        let cval: int = 0x100000000000000000000000000000000000000000000000000000001int;
        crate::limbs::lemma_val56_len8(c@);
        assert(crate::limbs::val56(c@) == cval);
        lemma_small_mod(cval as nat, p() as nat);
        // The reversal lemmas connect the little-endian buffers to the
        // big-endian value of the block.
        let full = Seq::new(84, |j: int| b@[83 - j]);
        lemma_reversed_le_is_be(b@, full);
        lemma_le_val_split(full, 56);
        assert(full.take(56) =~= lo_le@);
        assert(full.skip(56) =~= hi_le@.take(28));
        lemma_le_val_split(hi_le@, 28);
        lemma_le_val_zero(hi_le@.skip(28));
        let lo = le_val(lo_le@);
        let hi = le_val(hi_le@);
        assert(hi == le_val(hi_le@.take(28)));
        assert(be_val(b@) == lo + pow2(448) * hi);
        // 2^448 = p + (2^224 + 1), so the high weight folds to cval mod p.
        assert(pow2(448) == p() + cval) by {
            assert(pow2(56) == 0x100000000000000) by {
                lemma2_to64_rest();
            }
            lemma_pow2_adds(56, 56);
            assert(pow2(112) == 0x10000000000000000000000000000int);
            lemma_pow2_adds(112, 112);
            assert(pow2(224) == 0x100000000000000000000000000000000000000000000000000000000int);
            lemma_pow2_adds(224, 224);
            assert(pow2(448)
                == 0x10000000000000000000000000000000000000000000000000000000000000000000000000000000000000000000000000000000000000000int);
        }
        lemma_le_val_nonneg(lo_le@);
        lemma_le_val_nonneg(hi_le@);
        // fold the chain of mods into one
        lemma_mul_mod_noop_general(hi, cval, p());
        assert(fmul(hi % p(), cval) == (hi * cval) % p());
        lemma_add_mod_noop(hi * cval, lo, p());
        assert(fadd((hi * cval) % p(), lo % p()) == (hi * cval + lo) % p());
        assert(folded@ == (hi * cval + lo) % p());
        assert((p() + cval) * hi == p() * hi + cval * hi) by (nonlinear_arith);
        assert(hi * cval + lo + p() * hi == lo + pow2(448) * hi);
        lemma_mod_multiples_vanish(hi, hi * cval + lo, p());
        assert((hi * cval + lo) % p() == be_val(b@) % p());
    }
    folded
}

/// The Elligator2 map onto the Montgomery curve, in constant time: both
/// candidate abscissas are computed and the square one is selected.
pub fn map_to_curve_elligator2(u: &FieldElement) -> (r: (FieldElement, FieldElement))
    ensures
        r.0@ == map_to_curve_spec(u@).0,
        r.1@ == map_to_curve_spec(u@).1,
{
    let one = FieldElement::one();
    let zero = FieldElement::zero();
    let minus_one = zero.sub(&one);
    proof {
        assert(fsub(0, 1) == p() - 1);
    }
    let j = FieldElement::small(156326);
    let t1 = u.square().mul(&minus_one);
    let e1 = t1 == minus_one;
    proof {
        crate::field::lemma_fe_range(minus_one);
        lemma_small_mod(0, p() as nat);
    }
    let t1 = fe_select(&t1, &zero, e1);
    let x1 = j.negate().mul(&t1.add(&one).invert());
    let gx1 = x1.add(&j).mul(&x1).add(&one).mul(&x1);
    let x2 = x1.negate().sub(&j);
    let gx2 = t1.mul(&gx1);
    let root1 = gx1.sqrt_candidate();
    let e2 = root1.square() == gx1;
    let x = fe_select(&x2, &x1, e2);
    let y2 = fe_select(&gx2, &gx1, e2);
    let y = y2.sqrt_candidate();
    let e3 = y.is_negative();
    let y_neg = y.negate();
    let yf = fe_select(&y, &y_neg, e2 != e3);
    (x, yf)
}

/// The 4-isogeny from the Montgomery curve to the Edwards curve on an
/// affine pair, lifted to extended coordinates.
pub fn iso448(m: &(FieldElement, FieldElement)) -> (r: ExtendedPoint)
    ensures
        r@ == iso448_spec((m.0@, m.1@)),
{
    let u = m.0;
    let v = m.1;
    let one = FieldElement::one();
    let four = FieldElement::small(4);
    let u2 = u.mul(&u);
    let u3 = u2.mul(&u);
    let u4 = u2.mul(&u2);
    let u5 = u4.mul(&u);
    let v2 = v.mul(&v);
    let xn = four.mul(&v).mul(&u2.sub(&one));
    let xd = u4.sub(&u2.add(&u2)).add(&four.mul(&v2)).add(&one);
    let yn = u5.sub(&u3.add(&u3)).sub(&four.mul(&u).mul(&v2)).add(&u).negate();
    let yd = u5.sub(&u2.add(&u2).mul(&v2)).sub(&u3.add(&u3)).sub(&v2.add(&v2)).add(&u);
    let x = xn.mul(&xd.invert());
    let y = yn.mul(&yd.invert());
    let t = x.mul(&y);
    ExtendedPoint { X: x, Y: y, Z: one, T: t }
}

impl ExtendedPoint {
    /// RFC 9380 hash_to_curve with the SHAKE256 expander: uniform over the
    /// prime-order subgroup for a uniform oracle.
    pub fn hash(msg: &[u8], dst: &[u8]) -> (r: ExtendedPoint)
        requires
            dst@.len() > 0,
        ensures
            r@ == hash_spec(msg@, dst@),
    {
        let rb = expand_message_xof(msg, dst, 168);
        let mut b0 = [0u8; 84];
        let mut i: usize = 0;
        while i < 84
            invariant
                0 <= i <= 84,
                rb@.len() == 168,
                forall|j: int| 0 <= j < i ==> b0@[j] == rb@[j],
            decreases 84 - i,
        {
            b0[i] = rb[i];
            i += 1;
        }
        let mut b1 = [0u8; 84];
        let mut k: usize = 0;
        while k < 84
            invariant
                0 <= k <= 84,
                rb@.len() == 168,
                forall|j: int| 0 <= j < k ==> b1@[j] == rb@[84 + j],
            decreases 84 - k,
        {
            b1[k] = rb[84 + k];
            k += 1;
        }
        proof {
            assert(b0@ =~= rb@.subrange(0, 84));
            assert(b1@ =~= rb@.subrange(84, 168));
        }
        let u0 = from_okm(&b0);
        let u1 = from_okm(&b1);
        let q0 = iso448(&map_to_curve_elligator2(&u0));
        let q1 = iso448(&map_to_curve_elligator2(&u1));
        let cofactor = Scalar::from_u32(4);
        q0.add(&q1).scalar_mul(&cofactor)
    }

    /// `hash` with the library's default domain separation tag.
    pub fn hash_with_defaults(msg: &[u8]) -> (r: ExtendedPoint)
        ensures
            r@ == hash_spec(msg@, default_hash_dst()),
    {
        let dst: Vec<u8> = vec![
            101u8, 100, 119, 97, 114, 100, 115, 52, 52, 56, 95, 88, 79, 70, 58, 83, 72, 65, 75,
            69, 50, 53, 54, 95, 69, 76, 76, 50, 95, 82, 79, 95,
        ];
        proof {
            assert(dst@ =~= default_hash_dst());
        }
        ExtendedPoint::hash(msg, dst.as_slice())
    }

    /// RFC 9380 encode_to_curve with the SHAKE256 expander: on the curve
    /// and in the subgroup, but not uniform.
    pub fn encode(msg: &[u8], dst: &[u8]) -> (r: ExtendedPoint)
        requires
            dst@.len() > 0,
        ensures
            r@ == encode_spec(msg@, dst@),
    {
        let rb = expand_message_xof(msg, dst, 84);
        let mut b0 = [0u8; 84];
        let mut i: usize = 0;
        while i < 84
            invariant
                0 <= i <= 84,
                rb@.len() == 84,
                forall|j: int| 0 <= j < i ==> b0@[j] == rb@[j],
            decreases 84 - i,
        {
            b0[i] = rb[i];
            i += 1;
        }
        proof {
            assert(b0@ =~= rb@);
        }
        let u0 = from_okm(&b0);
        let q0 = iso448(&map_to_curve_elligator2(&u0));
        let cofactor = Scalar::from_u32(4);
        q0.scalar_mul(&cofactor)
    }

    /// `encode` with the library's default domain separation tag.
    pub fn encode_with_defaults(msg: &[u8]) -> (r: ExtendedPoint)
        ensures
            r@ == encode_spec(msg@, default_encode_dst()),
    {
        let dst: Vec<u8> = vec![
            101u8, 100, 119, 97, 114, 100, 115, 52, 52, 56, 95, 88, 79, 70, 58, 83, 72, 65, 75,
            69, 50, 53, 54, 95, 69, 76, 76, 50, 95, 78, 85, 95,
        ];
        proof {
            assert(dst@ =~= default_encode_dst());
        }
        ExtendedPoint::encode(msg, dst.as_slice())
    }
}

} // verus!
