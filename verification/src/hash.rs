//! The reference Pedersen hasher: the out-of-circuit twin of the in-circuit
//! hash gadget.
//!
//! `HashParams::hash` maps a scalar to the `u`-coordinate of the windowed
//! Pedersen hash, under the `NoteCommitment` personalization, of its 254
//! little-endian bits; `hash_chain5` applies it five times. The curve
//! arithmetic itself is done by the `sapling_crypto_ce` crate behind trusted
//! wrappers; everything around it — the bit decomposition, the chaining, and
//! the contracts — is verified.

use vstd::prelude::*;
use crate::bits::SCALAR_BITS;
use crate::bits::le_bits;
use crate::bits::le_bits_of;
use crate::scalar::Scalar;
use sapling_crypto_ce::alt_babyjubjub::AltJubjubBn256;
use bellman_ce::pairing::ff::PrimeField;

verus! {

#[verifier::external_type_specification]
#[verifier::external_body]
pub struct ExAltJubjubBn256(AltJubjubBn256);

/// The `u`-coordinate of the windowed Pedersen hash, personalized as
/// `NoteCommitment`, of a bit sequence: a pure function of the bits whose
/// exact value only the curve library computes.
pub uninterp spec fn pedersen_note_u(bits: Seq<bool>) -> nat;

/// Relies on `AltJubjubBn256::new`, which deterministically builds the fixed
/// Baby Jubjub curve constants and Pedersen generator tables.
#[verifier::external_body]
fn new_jubjub_params() -> AltJubjubBn256 {
    AltJubjubBn256::new()
}

/// Relies on `sapling_crypto_ce::pedersen_hash::pedersen_hash` with the
/// `NoteCommitment` personalization: the resulting curve point is a function
/// of the input bits alone (every `AltJubjubBn256` holds the same fixed
/// tables), and its affine `u`-coordinate, read through `into_xy` and
/// `into_repr`, is a canonical field element, so its value lies below the
/// field order.
#[verifier::external_body]
fn pedersen_hash_u(params: &AltJubjubBn256, bits: &Vec<bool>) -> (r: Scalar)
    requires
        bits@.len() == SCALAR_BITS,
    ensures
        r.val() == pedersen_note_u(bits@),
        r.wf(),
{
    let point = sapling_crypto_ce::pedersen_hash::pedersen_hash::<bellman_ce::pairing::bn256::Bn256, _>(
        sapling_crypto_ce::pedersen_hash::Personalization::NoteCommitment,
        bits.iter().cloned(),
        params,
    );
    let (u, _v) = point.into_xy();
    let repr = u.into_repr();
    Scalar { l0: repr.0[0], l1: repr.0[1], l2: repr.0[2], l3: repr.0[3] }
}

/// One application of the reference hash to the integer `v`: the Pedersen
/// `u`-coordinate of the 254 little-endian bits of `v`.
pub open spec fn hash_value(v: nat) -> nat {
    pedersen_note_u(le_bits_of(v, SCALAR_BITS as nat))
}

/// `k` applications of the reference hash to `v`.
pub open spec fn hash_chain(v: nat, k: nat) -> nat
    decreases k,
{
    if k == 0 {
        v
    } else {
        hash_value(hash_chain(v, (k - 1) as nat))
    }
}

/// The hash is a function of its input: equal scalars hash to equal values,
/// in every invocation and in every process.
pub proof fn lemma_hash_deterministic(a: nat, b: nat)
    requires
        a == b,
    ensures
        hash_value(a) == hash_value(b),
{
}

/// The fixed parameters of the Pedersen hash: the Baby Jubjub curve
/// constants and generator tables, shared read-only by every hash call.
pub struct HashParams {
    params: AltJubjubBn256,
}

impl HashParams {
    pub fn new() -> HashParams {
        HashParams { params: new_jubjub_params() }
    }

    /// The reference hash `H(x)`: the `u`-coordinate of the Pedersen hash of
    /// the 254 little-endian bits of `x`.
    pub fn hash(&self, x: &Scalar) -> (r: Scalar)
        ensures
            r.val() == hash_value(x.val()),
            r.wf(),
    {
        let bits = le_bits(x);
        pedersen_hash_u(&self.params, &bits)
    }

    /// The five-fold hash chain `H^5(x)`: what the circuit binds to its
    /// public input.
    pub fn hash_chain5(&self, x: &Scalar) -> (r: Scalar)
        ensures
            r.val() == hash_chain(x.val(), 5),
            r.wf(),
    {
        let mut cur: Scalar = *x;
        let mut i: usize = 0;
        while i < 5
            invariant
                i <= 5,
                cur.val() == hash_chain(x.val(), i as nat),
                i > 0 ==> cur.wf(),
            decreases 5 - i,
        {
            cur = self.hash(&cur);
            i = i + 1;
        }
        cur
    }

    /// Whether the preimage-chain relation holds: the five-fold hash of the
    /// witness `x` ends at the claimed public input `y`. This is the
    /// statement the circuit enforces; a constraint-satisfaction self-check
    /// on a concrete witness fails exactly when this is false.
    pub fn relation_holds(&self, x: &Scalar, y: &Scalar) -> (r: bool)
        ensures
            r <==> hash_chain(x.val(), 5) == y.val(),
    {
        let chained = self.hash_chain5(x);
        proof {
            if chained.val() == y.val() {
                crate::scalar::lemma_val_injective(chained, *y);
            }
        }
        chained == *y
    }
}

} // verus!
