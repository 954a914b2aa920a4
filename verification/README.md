# zk_membership

Verified core of a membership service checked with Groth16 proofs
(BLS12-381).  A server publishes the root of its membership tree as 32
bytes; a member sends a Groth16 proof with that root as its public input,
and the server answers with confidential data only when the proof verifies
and its public input is the server's own root.

- `src/` is the verified library (Verus): the wire encoding of a root, the
  parsing of user input, the client's key handling, the reading of the
  server's hash parameters, and the server's verdict on a proof.
- `tests/` exercises the library, including a Groth16 round trip on a small
  circuit.
- `app/` is the terminal client and the HTTP server around the library.  The
  server is given its tree root on the command line and serves
  `/send_proof`; it keeps no tree, so it serves no Merkle paths.  The client
  has no Merkle-path circuit, so it cannot generate proofs: its proof request
  reports an error.
