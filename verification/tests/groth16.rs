// The full pipeline against the real proving system: key generation once,
// proofs for two distinct witnesses under the same keys, verification of
// each, and rejection of a corrupted public input.

use bellman_ce::groth16::create_random_proof;
use bellman_ce::groth16::generate_random_parameters;
use bellman_ce::groth16::prepare_verifying_key;
use bellman_ce::groth16::verify_proof;
use bellman_ce::pairing::bn256::Bn256;
use bellman_ce::pairing::bn256::Fr;
use bellman_ce::pairing::bn256::FrRepr;
use bellman_ce::pairing::ff::Field;
use bellman_ce::pairing::ff::PrimeField;
use bellman_ce::Circuit;
use bellman_ce::ConstraintSystem;
use bellman_ce::SynthesisError;
use rand::SeedableRng;
use rand::XorShiftRng;
use sapling_crypto_ce::alt_babyjubjub::AltJubjubBn256;
use sapling_crypto_ce::circuit::num::AllocatedNum;
use sapling_crypto_ce::circuit::pedersen_hash;
use sapling_crypto_ce::circuit::Assignment;

use pedersen_chain::hash::HashParams;
use pedersen_chain::scalar::Scalar;

struct ChainStatement<'a> {
    params: &'a AltJubjubBn256,
    hash: Option<Fr>,
    preimage: Option<Fr>,
}

impl<'a> Circuit<Bn256> for ChainStatement<'a> {
    fn synthesize<CS: ConstraintSystem<Bn256>>(self, cs: &mut CS) -> Result<(), SynthesisError> {
        let hash = AllocatedNum::alloc(cs.namespace(|| "hash"), || {
            let hash_value = self.hash;
            Ok(*hash_value.get()?)
        })?;
        hash.inputize(cs.namespace(|| "hash input"))?;

        let mut hash_calculated = AllocatedNum::alloc(cs.namespace(|| "preimage"), || {
            let preimage_value = self.preimage;
            Ok(*preimage_value.get()?)
        })?;

        for i in 0..5 {
            let preimage_bits = hash_calculated
                .into_bits_le(cs.namespace(|| format!("preimage into bits {}", i)))?;

            hash_calculated = pedersen_hash::pedersen_hash(
                cs.namespace(|| format!("hash calculated {}", i)),
                pedersen_hash::Personalization::NoteCommitment,
                &preimage_bits,
                self.params,
            )?
            .get_x()
            .clone();
        }

        cs.enforce(
            || "add constraint between input and pedersen hash output",
            |lc| lc + hash_calculated.get_variable(),
            |lc| lc + CS::one(),
            |lc| lc + hash.get_variable(),
        );
        Ok(())
    }
}

fn to_fr(s: &Scalar) -> Fr {
    Fr::from_repr(FrRepr([s.l0, s.l1, s.l2, s.l3])).unwrap()
}

#[test]
fn groth16_round_trip_and_key_reuse() {
    let rng = &mut XorShiftRng::from_seed([0x5dbe6259, 0x8d313d76, 0x3237db17, 0xe5bc0654]);
    let jubjub = AltJubjubBn256::new();
    let keys = generate_random_parameters::<Bn256, _, _>(
        ChainStatement {
            params: &jubjub,
            hash: None,
            preimage: None,
        },
        rng,
    )
    .unwrap();
    let pvk = prepare_verifying_key(&keys.vk);
    let hasher = HashParams::new();

    // One key pair serves distinct witnesses.
    for witness in [5u64, 6u64] {
        let x = Scalar::from_u64(witness);
        let y = to_fr(&hasher.hash_chain5(&x));
        let proof = create_random_proof(
            ChainStatement {
                params: &jubjub,
                hash: Some(y),
                preimage: Some(to_fr(&x)),
            },
            &keys,
            rng,
        )
        .unwrap();
        assert!(verify_proof(&pvk, &proof, &[y]).unwrap());

        let mut y_corrupted = y;
        y_corrupted.add_assign(&Fr::one());
        assert!(!verify_proof(&pvk, &proof, &[y_corrupted]).unwrap());
    }
}
