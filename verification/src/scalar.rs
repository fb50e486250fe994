//! Elements of the scalar field of the BN254 pairing curve, which is also the
//! base field of the Baby Jubjub curve that the Pedersen hash works over.
//!
//! A `Scalar` holds the canonical value as four 64-bit little-endian limbs;
//! `val` is the integer it denotes and `wf` says that it lies in the field.

use vstd::prelude::*;

verus! {

use vstd::arithmetic::power2::pow2;
use vstd::arithmetic::power2::lemma2_to64;
use vstd::arithmetic::power2::lemma_pow2_adds;
use vstd::arithmetic::div_mod::lemma_mod_multiples_vanish;
use vstd::arithmetic::div_mod::lemma_small_mod;
use vstd::arithmetic::div_mod::lemma_hoist_over_denominator;

/// The order of the scalar field of BN254: a 254-bit prime.
pub open spec fn fr_order() -> nat {
    21888242871839275222246405745257275088548364400416034343698204186575808495617nat
}

/// Little-endian limbs of `fr_order()`, least significant first.
pub const FR_ORDER_LIMB0: u64 = 0x43E1F593F0000001;
pub const FR_ORDER_LIMB1: u64 = 0x2833E84879B97091;
pub const FR_ORDER_LIMB2: u64 = 0xB85045B68181585D;
pub const FR_ORDER_LIMB3: u64 = 0x30644E72E131A029;

/// A scalar field element as four little-endian 64-bit limbs.
#[derive(Clone, Copy, Debug, PartialEq, Eq, Structural)]
pub struct Scalar {
    pub l0: u64,
    pub l1: u64,
    pub l2: u64,
    pub l3: u64,
}

/// The integer value of four little-endian limbs, in Horner form.
pub open spec fn limbs_val(l0: u64, l1: u64, l2: u64, l3: u64) -> nat {
    (l0 + pow2(64) * (l1 + pow2(64) * (l2 + pow2(64) * l3))) as nat
}

impl Scalar {
    /// The integer this scalar denotes.
    pub open spec fn val(self) -> nat {
        limbs_val(self.l0, self.l1, self.l2, self.l3)
    }

    /// Well-formed: the value is canonical, i.e. lies in the field.
    pub open spec fn wf(self) -> bool {
        self.val() < fr_order()
    }

    /// The scalar with a small value.
    pub fn from_u64(x: u64) -> (s: Scalar)
        ensures
            s.wf(),
            s.val() == x,
    {
        proof {
            lemma2_to64();
        }
        Scalar { l0: x, l1: 0, l2: 0, l3: 0 }
    }

    /// Builds a scalar from little-endian limbs, accepting exactly the
    /// canonical values: `Some` if and only if the limbs denote an integer
    /// below the field order.
    pub fn from_limbs(l0: u64, l1: u64, l2: u64, l3: u64) -> (r: Option<Scalar>)
        ensures
            r is Some <==> limbs_val(l0, l1, l2, l3) < fr_order(),
            r matches Some(s) ==> s == (Scalar { l0, l1, l2, l3 }),
    {
        proof {
            lemma_limb_order(l0, l1, l2, l3);
        }
        let below: bool = if l3 != FR_ORDER_LIMB3 {
            l3 < FR_ORDER_LIMB3
        } else if l2 != FR_ORDER_LIMB2 {
            l2 < FR_ORDER_LIMB2
        } else if l1 != FR_ORDER_LIMB1 {
            l1 < FR_ORDER_LIMB1
        } else {
            l0 < FR_ORDER_LIMB0
        };
        if below {
            Some(Scalar { l0, l1, l2, l3 })
        } else {
            None
        }
    }
}

/// Concrete values of the powers of two at the limb boundaries.
proof fn lemma_pow2_limb_values()
    ensures
        pow2(64) == 0x1_0000_0000_0000_0000,
        pow2(128) == 0x1_0000_0000_0000_0000_0000_0000_0000_0000,
        pow2(192) == 0x1_0000_0000_0000_0000_0000_0000_0000_0000_0000_0000_0000_0000,
{
    lemma2_to64();
    lemma_pow2_adds(64, 64);
    lemma_pow2_adds(128, 64);
}

/// Limbwise lexicographic comparison agrees with comparison of the values.
proof fn lemma_limb_order(l0: u64, l1: u64, l2: u64, l3: u64)
    ensures
        limbs_val(l0, l1, l2, l3) < fr_order() <==> (l3 < FR_ORDER_LIMB3
            || (l3 == FR_ORDER_LIMB3 && l2 < FR_ORDER_LIMB2)
            || (l3 == FR_ORDER_LIMB3 && l2 == FR_ORDER_LIMB2 && l1 < FR_ORDER_LIMB1)
            || (l3 == FR_ORDER_LIMB3 && l2 == FR_ORDER_LIMB2 && l1 == FR_ORDER_LIMB1
                && l0 < FR_ORDER_LIMB0)),
{
    lemma_pow2_limb_values();
    assert(limbs_val(l0, l1, l2, l3) == l0 + 0x1_0000_0000_0000_0000 * l1
        + 0x1_0000_0000_0000_0000_0000_0000_0000_0000 * l2
        + 0x1_0000_0000_0000_0000_0000_0000_0000_0000_0000_0000_0000_0000 * l3)
        by (nonlinear_arith)
        requires limbs_val(l0, l1, l2, l3) == (l0 + pow2(64) * (l1 + pow2(64) * (l2 + pow2(64)
            * l3))) as nat && pow2(64) == 0x1_0000_0000_0000_0000 && pow2(128)
            == 0x1_0000_0000_0000_0000_0000_0000_0000_0000 && pow2(192)
            == 0x1_0000_0000_0000_0000_0000_0000_0000_0000_0000_0000_0000_0000;
}

/// Two scalars that denote the same integer have the same limbs: the base
/// 2^64 representation is unique, so equal hash values are bitwise equal.
pub proof fn lemma_val_injective(a: Scalar, b: Scalar)
    requires
        a.val() == b.val(),
    ensures
        a == b,
{
    lemma_limb_split(a.l0, a.l1, a.l2, a.l3);
    lemma_limb_split(b.l0, b.l1, b.l2, b.l3);
}

/// Each limb is determined by the value: limb `i` is digit `i` in base 2^64.
proof fn lemma_limb_split(l0: u64, l1: u64, l2: u64, l3: u64)
    ensures
        limbs_val(l0, l1, l2, l3) % pow2(64) == l0,
        limbs_val(l0, l1, l2, l3) / pow2(64) % pow2(64) == l1,
        limbs_val(l0, l1, l2, l3) / pow2(64) / pow2(64) % pow2(64) == l2,
        limbs_val(l0, l1, l2, l3) / pow2(64) / pow2(64) / pow2(64) == l3,
{
    lemma2_to64();
    let p: nat = pow2(64);
    let r2: nat = (l2 + p * l3) as nat;
    let r1: nat = (l1 + p * r2) as nat;
    let v: nat = limbs_val(l0, l1, l2, l3);
    assert(v == l0 + p * r1);
    lemma_digit(l0, r1, p);
    lemma_digit(l1, r2, p);
    lemma_digit(l2, l3 as nat, p);
    lemma_small_mod(l1 as nat, p);
    lemma_small_mod(l2 as nat, p);
}

/// In `d + b * rest` with `d < b`, the low digit is `d` and the rest divides out.
proof fn lemma_digit(d: u64, rest: nat, b: nat)
    requires
        d < b,
        0 < b,
    ensures
        (d + b * rest) % (b as int) == d,
        (d + b * rest) / (b as int) == rest,
{
    lemma_mod_multiples_vanish(rest as int, d as int, b as int);
    lemma_small_mod(d as nat, b);
    assert(b * rest == rest * b) by (nonlinear_arith);
    lemma_hoist_over_denominator(d as int, rest as int, b);
    vstd::arithmetic::div_mod::lemma_basic_div(d as int, b as int);
}

} // verus!
