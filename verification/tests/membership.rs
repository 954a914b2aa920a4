use ark_bls12_381::{Bls12_381, Fr};
use ark_groth16::Groth16;
use ark_relations::r1cs::{
    ConstraintSynthesizer, ConstraintSystemRef, LinearCombination, SynthesisError,
};
use ark_serialize::CanonicalSerialize;
use ark_snark::{CircuitSpecificSetupSNARK, SNARK};
use zk_membership::membership::{
    membership_reply, public_input_from_bytes, root_to_bytes, send_proof_reply,
    try_send_proof_reply, verify_membership,
};

/// Knowledge of a square root: the public input is `root`, the witness `w`
/// with `w * w == root`.
#[derive(Clone)]
struct SquareRoot {
    root: Fr,
    witness: Fr,
}

impl ConstraintSynthesizer<Fr> for SquareRoot {
    fn generate_constraints(self, cs: ConstraintSystemRef<Fr>) -> Result<(), SynthesisError> {
        let root = cs.new_input_variable(|| Ok(self.root))?;
        let w = cs.new_witness_variable(|| Ok(self.witness))?;
        cs.enforce_constraint(
            LinearCombination::from(w),
            LinearCombination::from(w),
            LinearCombination::from(root),
        )?;
        Ok(())
    }
}

struct Fixture {
    proof: Vec<u8>,
    vk: Vec<u8>,
    root: Fr,
}

fn fixture() -> Fixture {
    let mut rng = ark_std::test_rng();
    let root = Fr::from(9u64);
    let circuit = SquareRoot { root, witness: Fr::from(3u64) };
    let (pk, vk) = Groth16::<Bls12_381>::circuit_specific_setup(circuit.clone(), &mut rng).unwrap();
    let proof = Groth16::<Bls12_381>::prove(&pk, circuit, &mut rng).unwrap();
    let mut proof_bytes = Vec::new();
    proof.serialize(&mut proof_bytes).unwrap();
    let mut vk_bytes = Vec::new();
    vk.serialize(&mut vk_bytes).unwrap();
    Fixture { proof: proof_bytes, vk: vk_bytes, root }
}

#[test]
fn root_bytes_give_the_root_back() {
    for n in [0u64, 1, 9, 123_456_789, u64::MAX] {
        let x = Fr::from(n);
        let bytes = root_to_bytes(&x);
        assert_eq!(bytes.len(), 32);
        assert_eq!(public_input_from_bytes(bytes), x);
    }
}

#[test]
fn root_bytes_are_the_limbs_big_endian() {
    let x = Fr::from(5u64);
    let limbs = (x.0).0;
    let bytes = root_to_bytes(&x);
    for k in 0..4 {
        let mut word = [0u8; 8];
        word.copy_from_slice(&bytes[8 * k..8 * k + 8]);
        assert_eq!(u64::from_be_bytes(word), limbs[k]);
    }
    assert_ne!(bytes, vec![0u8; 32]);
}

#[test]
fn a_valid_proof_under_the_server_root_is_accepted() {
    let f = fixture();
    let input = root_to_bytes(&f.root);
    assert_eq!(verify_membership(&f.proof, input, &f.vk, &f.root), Some(true));
}

#[test]
fn a_proof_for_another_root_is_refused() {
    let f = fixture();
    let other = root_to_bytes(&Fr::from(10u64));
    assert_eq!(verify_membership(&f.proof, other, &f.vk, &f.root), Some(false));
    let other_root = Fr::from(10u64);
    assert_eq!(
        verify_membership(&f.proof, root_to_bytes(&Fr::from(10u64)), &f.vk, &other_root),
        Some(false)
    );
}

#[test]
fn a_valid_proof_for_a_root_other_than_the_server_root_is_refused() {
    let f = fixture();
    let server_root = Fr::from(16u64);
    let input = root_to_bytes(&f.root);
    assert_eq!(verify_membership(&f.proof, input.clone(), &f.vk, &server_root), Some(false));
    assert_eq!(send_proof_reply(&f.proof, input, &f.vk, &server_root), "CONFIDENTIAL");
}

#[test]
fn unreadable_proof_or_key_gives_no_verdict() {
    let f = fixture();
    let input = root_to_bytes(&f.root);
    assert_eq!(verify_membership(&[1, 2, 3], input.clone(), &f.vk, &f.root), None);
    assert_eq!(verify_membership(&f.proof, input.clone(), &[], &f.root), None);
    assert_eq!(try_send_proof_reply(&[], input, &f.vk, &f.root), None);
}

#[test]
fn replies_name_members_only() {
    assert_eq!(membership_reply(true), "keeper_2022_tech{zer0_kn0wledg3_pr00f}");
    assert_eq!(membership_reply(false), "CONFIDENTIAL");
    let f = fixture();
    assert_eq!(
        send_proof_reply(&f.proof, root_to_bytes(&f.root), &f.vk, &f.root),
        "keeper_2022_tech{zer0_kn0wledg3_pr00f}"
    );
    assert_eq!(
        send_proof_reply(&f.proof, root_to_bytes(&Fr::from(4u64)), &f.vk, &f.root),
        "CONFIDENTIAL"
    );
    assert_eq!(
        try_send_proof_reply(&f.proof, root_to_bytes(&f.root), &f.vk, &f.root),
        Some("keeper_2022_tech{zer0_kn0wledg3_pr00f}".to_string())
    );
    assert_eq!(
        try_send_proof_reply(&f.proof, root_to_bytes(&Fr::from(4u64)), &f.vk, &f.root),
        Some("CONFIDENTIAL".to_string())
    );
}
