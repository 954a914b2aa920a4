//! Verified core of a Merkle-tree membership service that is checked with
//! zk-SNARK (Groth16) proofs.
//!
//! The library holds the parts of the client and of the server that compute:
//! the wire encoding of a Merkle root (`codec`), the reading of the user's
//! input (`input`), the client's reaction to keys (`client`), the reading of
//! the server's hash parameters (`hash_params`), and the server's verdict on
//! a membership proof (`membership`).

pub mod codec;
pub mod input;
pub mod client;
pub mod membership;
pub mod hash_params;
