//! Scalars for the group: 448-bit unsigned integers held as seven 64-bit
//! limbs. The group layer needs only a handful of operations from them:
//! construction from small integers, the floor division by four that feeds
//! the twisted-curve ladder, the residue mod four, and the prime subgroup
//! order as a constant.

use vstd::prelude::*;
use vstd::arithmetic::power2::{pow2, lemma2_to64};
use vstd::arithmetic::div_mod::{
    lemma_fundamental_div_mod, lemma_fundamental_div_mod_converse, lemma_mod_multiples_vanish,
    lemma_mod_division_less_than_divisor,
};
use vstd::bits::{
    lemma_u64_low_bits_mask_is_mod, lemma_u64_shl_is_mul, lemma_u64_shr_is_div,
    lemma_low_bits_mask_values,
};
use crate::limbs::{val64, lemma_val64_len7, lemma_val64_nonneg};

verus! {

/// The order of the prime subgroup of the Edwards448 group.
pub open spec fn basepoint_order() -> int {
    0x3fffffffffffffffffffffffffffffffffffffffffffffffffffffff7cca23e9c44edb49aed63690216cc2728dc58f552378c292ab5844f3int
}

/// A 448-bit scalar. Its mathematical value is `view`; no reduction modulo
/// the group order is implied by the type.
#[derive(Clone, Copy, Debug)]
pub struct Scalar {
    pub(crate) limbs: [u64; 7],
}

impl View for Scalar {
    type V = int;

    closed spec fn view(&self) -> int {
        val64(self.limbs@)
    }
}

/// A scalar's value is a nonnegative 448-bit integer.
pub proof fn lemma_scalar_range(s: Scalar)
    ensures
        0 <= s@ < pow2(448),
{
    lemma_val64_nonneg(s.limbs@);
    crate::limbs::lemma_val64_bound(s.limbs@);
    assert(64 * s.limbs@.len() == 448);
}

impl Scalar {
    /// The scalar with a given 32-bit value.
    pub fn from_u32(v: u32) -> (r: Scalar)
        ensures
            r@ == v as int,
    {
        let limbs = [v as u64, 0u64, 0, 0, 0, 0, 0];
        proof {
            lemma_val64_len7(limbs@);
        }
        Scalar { limbs }
    }

    /// The order of the prime subgroup, as a scalar.
    pub fn order() -> (r: Scalar)
        ensures
            r@ == basepoint_order(),
    {
        let limbs = [
            0x2378c292ab5844f3u64,
            0x216cc2728dc58f55,
            0xc44edb49aed63690,
            0xffffffff7cca23e9,
            0xffffffffffffffff,
            0xffffffffffffffff,
            0x3fffffffffffffff,
        ];
        proof {
            lemma_val64_len7(limbs@);
            assert(val64(limbs@) == basepoint_order());
        }
        Scalar { limbs }
    }

    /// The residue of the scalar modulo four.
    pub fn mod_four(&self) -> (r: u64)
        ensures
            r == self@ % 4,
    {
        let l0 = self.limbs[0];
        proof {
            let rest = val64(self.limbs@.skip(1));
            lemma_val64_nonneg(self.limbs@.skip(1));
            assert(val64(self.limbs@) == l0 + 0x10000000000000000 * rest);
            assert(l0 + 0x10000000000000000 * rest == 4 * (0x4000000000000000 * rest) + l0)
                by (nonlinear_arith);
            lemma_mod_multiples_vanish(0x4000000000000000 * rest, l0 as int, 4);
            lemma_u64_low_bits_mask_is_mod(l0, 2);
            lemma_low_bits_mask_values();
            assert(pow2(2) == 4) by {
                lemma2_to64();
            }
        }
        l0 & 3
    }

    /// Reads bit `j` of the scalar's value.
    pub(crate) fn bit(&self, j: usize) -> (b: bool)
        requires
            j < 448,
        ensures
            b == ((self@ / pow2(j as nat) as int) % 2 == 1),
    {
        let q = j / 64;
        let r = j % 64;
        let w = self.limbs[q];
        let sh = (w >> (r as u64)) & 1;
        proof {
            crate::limbs::lemma_val64_bit(self.limbs@, j as nat);
            lemma_u64_shr_is_div(w, r as u64);
            let t = w >> (r as u64);
            assert((t & 1) as int == t as int % 2) by (bit_vector);
        }
        sh == 1
    }

    /// The floor of the scalar divided by four: a right shift by two bits.
    pub fn div_by_four(&self) -> (r: Scalar)
        ensures
            r@ == self@ / 4,
    {
        let l = &self.limbs;
        let limbs = [
            (l[0] >> 2) | ((l[1] & 3) << 62),
            (l[1] >> 2) | ((l[2] & 3) << 62),
            (l[2] >> 2) | ((l[3] & 3) << 62),
            (l[3] >> 2) | ((l[4] & 3) << 62),
            (l[4] >> 2) | ((l[5] & 3) << 62),
            (l[5] >> 2) | ((l[6] & 3) << 62),
            l[6] >> 2,
        ];
        proof {
            lemma_val64_len7(l@);
            lemma_val64_len7(limbs@);
            lemma_low_bits_mask_values();
            assert(pow2(2) == 4 && pow2(62) == 0x4000000000000000) by {
                lemma2_to64();
                vstd::arithmetic::power2::lemma2_to64_rest();
            }
            assert forall|i: int| 0 <= i < 7 implies (#[trigger] l@[i]) >> 2 == l@[i] / 4 by {
                lemma_u64_shr_is_div(l@[i], 2);
            }
            assert forall|i: int| 0 <= i < 7 implies (#[trigger] l@[i]) & 3 == l@[i] % 4 by {
                lemma_u64_low_bits_mask_is_mod(l@[i], 2);
            }
            assert forall|i: int| 0 <= i < 7 implies ((#[trigger] l@[i]) & 3) << 62 == (l@[i] % 4)
                * 0x4000000000000000 by {
                lemma_u64_shl_is_mul(l@[i] & 3, 62);
            }
            assert forall|i: int| 0 <= i < 6 implies #[trigger] limbs@[i] == l@[i] / 4 + (l@[i + 1]
                % 4) * 0x4000000000000000 by {
                let a = l@[i] >> 2;
                let b = (l@[i + 1] & 3) << 62;
                assert(a | b == a + b) by (bit_vector)
                    requires
                        a < 0x4000000000000000 && (b == 0 || b == 0x4000000000000000 || b
                            == 0x8000000000000000 || b == 0xc000000000000000),
                ;
                assert(l@[i] / 4 < 0x4000000000000000);
                assert(l@[i + 1] % 4 < 4);
            }
            assert forall|i: int| 0 <= i < 7 implies #[trigger] l@[i] == 4 * (l@[i] / 4) + l@[i]
                % 4 by {
                lemma_fundamental_div_mod(l@[i] as int, 4);
            }
            assert(4 * val64(limbs@) + val64(l@) % 4 == val64(l@)) by {
                assert(val64(l@) % 4 == l@[0] % 4) by {
                    let rest = val64(l@.skip(1));
                    lemma_val64_nonneg(l@.skip(1));
                    assert(l@[0] + 0x10000000000000000 * rest == 4 * (0x4000000000000000 * rest)
                        + l@[0]) by (nonlinear_arith);
                    lemma_mod_multiples_vanish(0x4000000000000000 * rest, l@[0] as int, 4);
                }
            }
            lemma_val64_nonneg(limbs@);
            lemma_mod_division_less_than_divisor(val64(l@), 4);
            lemma_fundamental_div_mod_converse(val64(l@), 4, val64(limbs@), val64(l@) % 4);
        }
        Scalar { limbs }
    }
}

} // verus!
