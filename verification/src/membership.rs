//! The server's side of a membership check: the root it publishes, and its
//! verdict on a Groth16 proof that a leaf belongs to the tree under that root.
use vstd::prelude::*;
use ark_bls12_381::{Bls12_381, Fr};
use ark_groth16::{Proof, VerifyingKey};
use ark_serialize::CanonicalDeserialize;
use ark_snark::SNARK;
use crate::codec::{
    bytes_to_limbs, convert_u64_array_to_u8_vec, convert_u8_vec_to_u64_array,
    lemma_limbs_survive_encoding, limbs_to_bytes,
};

verus! {

/// `ark_ff::Fp256<P>`, the type of 256-bit prime field elements; opaque here.
#[verifier::external_type_specification]
#[verifier::external_body]
#[verifier::reject_recursive_types(P)]
pub struct ExFp256<P>(ark_ff::Fp256<P>);

/// `ark_bls12_381::FrParameters`, the parameters of the scalar field `Fr` of
/// BLS12-381, in which Merkle roots and public inputs live; opaque here.
#[verifier::external_type_specification]
#[verifier::external_body]
pub struct ExFrParameters(ark_bls12_381::FrParameters);

/// A Groth16 proof over BLS12-381, held as an opaque value: the parameter of
/// `Proof<E>` is bounded by an outside trait, so the type itself cannot be
/// declared here.
#[verifier::external_body]
pub struct Groth16Proof {
    inner: Proof<Bls12_381>,
}

/// A Groth16 verifying key over BLS12-381, held opaque as [`Groth16Proof`] is.
#[verifier::external_body]
pub struct Groth16VerifyingKey {
    inner: VerifyingKey<Bls12_381>,
}

/// The proof that `CanonicalDeserialize::deserialize` reads from `bytes`, if
/// it reads one.
pub uninterp spec fn proof_from_bytes(bytes: Seq<u8>) -> Option<Groth16Proof>;

/// The verifying key that `CanonicalDeserialize::deserialize` reads from
/// `bytes`, if it reads one.
pub uninterp spec fn verifying_key_from_bytes(bytes: Seq<u8>) -> Option<Groth16VerifyingKey>;

/// What `Groth16::verify` answers for a verifying key, one public input and a
/// proof: `Some(accepted)`, or `None` where it reports an error.
pub uninterp spec fn groth16_verdict(vk: Groth16VerifyingKey, input: Fr, proof: Groth16Proof) -> Option<bool>;

/// The field element `Fp256::new(BigInteger256(limbs))`, whose internal
/// representation is `limbs`.
pub uninterp spec fn field_element_from_limbs(limbs: Seq<u64>) -> Fr;

/// The four limbs of the internal representation of `x` (`x.0.0`).
pub uninterp spec fn limbs_of(x: Fr) -> Seq<u64>;

/// `Proof::<Bls12_381>::deserialize` on `bytes`; the error is dropped.
#[verifier::external_body]
fn read_proof(bytes: &[u8]) -> (r: Option<Groth16Proof>)
    ensures
        r == proof_from_bytes(bytes@),
{
    match Proof::<Bls12_381>::deserialize(bytes) {
        Ok(inner) => Some(Groth16Proof { inner }),
        Err(_) => None,
    }
}

/// `VerifyingKey::<Bls12_381>::deserialize` on `bytes`; the error is dropped.
#[verifier::external_body]
fn read_verifying_key(bytes: &[u8]) -> (r: Option<Groth16VerifyingKey>)
    ensures
        r == verifying_key_from_bytes(bytes@),
{
    match VerifyingKey::<Bls12_381>::deserialize(bytes) {
        Ok(inner) => Some(Groth16VerifyingKey { inner }),
        Err(_) => None,
    }
}

/// `Groth16::<Bls12_381>::verify` with the single public input `input`; the
/// error is dropped.
#[verifier::external_body]
fn groth16_verify(vk: &Groth16VerifyingKey, input: &Fr, proof: &Groth16Proof) -> (r: Option<bool>)
    ensures
        r == groth16_verdict(*vk, *input, *proof),
{
    ark_groth16::Groth16::<Bls12_381>::verify(&vk.inner, &[*input], &proof.inner).ok()
}

/// `Fp256::new(BigInteger256::new(limbs))`: the field element whose internal
/// representation is `limbs`.  Reading the representation back gives `limbs`.
#[verifier::external_body]
fn field_element_new(limbs: [u64; 4]) -> (x: Fr)
    ensures
        x == field_element_from_limbs(limbs@),
        limbs_of(x) == limbs@,
{
    Fr::new(ark_ff::BigInteger256(limbs))
}

/// `x.0.0`: the internal representation of `x`.  Building a field element
/// from it gives `x` back.
#[verifier::external_body]
fn field_element_limbs(x: &Fr) -> (limbs: [u64; 4])
    ensures
        limbs@ == limbs_of(*x),
        field_element_from_limbs(limbs@) == *x,
{
    (x.0).0
}

/// The field element that the first 32 bytes of `bytes` stand for on the wire.
pub fn public_input_from_bytes(bytes: Vec<u8>) -> (x: Fr)
    requires
        bytes@.len() >= 32,
    ensures
        x == field_element_from_limbs(bytes_to_limbs(bytes@)),
{
    let limbs: [u64; 4] = convert_u8_vec_to_u64_array(bytes);
    field_element_new(limbs)
}

/// The 32 bytes by which the server publishes the Merkle root `root`.
/// Reading them back as a public input gives `root` again.
pub fn root_to_bytes(root: &Fr) -> (bytes: Vec<u8>)
    ensures
        bytes@ == limbs_to_bytes(limbs_of(*root)),
        bytes@.len() == 32,
        field_element_from_limbs(bytes_to_limbs(bytes@)) == *root,
{
    let limbs: [u64; 4] = field_element_limbs(root);
    let bytes = convert_u64_array_to_u8_vec(limbs);
    proof {
        lemma_limbs_survive_encoding(limbs@);
    }
    bytes
}

/// The verdict on a membership proof sent as bytes, against the root `root`
/// of the server's own tree: `Some(member)` when the proof and the verifying
/// key can be read and `Groth16::verify` answers, and `None` where any of
/// these fails.  A member's proof is accepted and proves membership under
/// the server's root: its public input decodes to `root`.
pub open spec fn membership_verdict(proof: Seq<u8>, public_input: Seq<u8>, vk: Seq<u8>, root: Fr) -> Option<bool> {
    let input = field_element_from_limbs(bytes_to_limbs(public_input));
    match (proof_from_bytes(proof), verifying_key_from_bytes(vk)) {
        (Some(p), Some(k)) => match groth16_verdict(k, input, p) {
            Some(accepted) => Some(accepted && input == root),
            None => None,
        },
        _ => None,
    }
}

/// The reply text for a proof that was accepted (`valid`) or refused.
pub open spec fn reply_text(valid: bool) -> Seq<char> {
    if valid {
        "keeper_2022_tech{zer0_kn0wledg3_pr00f}"@
    } else {
        "CONFIDENTIAL"@
    }
}

/// Checks a membership proof sent as bytes against the server's root
/// (see [`membership_verdict`]).
pub fn verify_membership(proof: &[u8], public_input: Vec<u8>, vk: &[u8], root: &Fr) -> (r: Option<bool>)
    requires
        public_input@.len() >= 32,
    ensures
        r == membership_verdict(proof@, public_input@, vk@, *root),
{
    let proof = match read_proof(proof) {
        Some(p) => p,
        None => return None,
    };
    let limbs: [u64; 4] = convert_u8_vec_to_u64_array(public_input);
    let input = field_element_new(limbs);
    let vk = match read_verifying_key(vk) {
        Some(k) => k,
        None => return None,
    };
    let accepted = match groth16_verify(&vk, &input, &proof) {
        Some(a) => a,
        None => return None,
    };
    let root_limbs: [u64; 4] = field_element_limbs(root);
    let under_root = limbs[0] == root_limbs[0] && limbs[1] == root_limbs[1] && limbs[2] == root_limbs[2]
        && limbs[3] == root_limbs[3];
    proof {
        if under_root {
            assert(limbs@ =~= root_limbs@);
        }
    }
    Some(accepted && under_root)
}

/// The reply to a membership proof: the confidential message for a member,
/// a refusal for anyone else.
pub fn membership_reply(valid: bool) -> (reply: String)
    ensures
        reply@ == reply_text(valid),
{
    if valid {
        String::from_str("keeper_2022_tech{zer0_kn0wledg3_pr00f}")
    } else {
        String::from_str("CONFIDENTIAL")
    }
}

/// The server's answer to a membership proof sent as bytes, against its
/// root `root`: the reply text for the verdict.  A verdict must be had: the
/// proof and the key must be readable and the verifier must answer.
pub fn send_proof_reply(proof: &[u8], public_input: Vec<u8>, vk: &[u8], root: &Fr) -> (reply: String)
    requires
        public_input@.len() >= 32,
        membership_verdict(proof@, public_input@, vk@, *root) is Some,
    ensures
        reply@ == reply_text(membership_verdict(proof@, public_input@, vk@, *root)->0),
{
    match verify_membership(proof, public_input, vk, root) {
        Some(member) => membership_reply(member),
        None => {
            proof {
                assert(false);
            }
            String::new()
        },
    }
}

/// The server's answer to a membership proof sent as bytes where no verdict
/// may be had: the reply text for the verdict, or `None` where the proof or
/// the key cannot be read or the verifier reports an error.  The verdict is
/// looked up first, so that [`send_proof_reply`] is only asked where it can
/// answer.
pub fn try_send_proof_reply(proof: &[u8], public_input: Vec<u8>, vk: &[u8], root: &Fr) -> (reply: Option<String>)
    requires
        public_input@.len() >= 32,
    ensures
        match membership_verdict(proof@, public_input@, vk@, *root) {
            Some(member) => reply is Some && reply->0@ == reply_text(member),
            None => reply is None,
        },
{
    let input_copy = public_input.clone();
    match verify_membership(proof, input_copy, vk, root) {
        Some(_) => Some(send_proof_reply(proof, public_input, vk, root)),
        None => None,
    }
}

} // verus!
