//! A tiny 64-bit add/subtract register machine whose execution is encoded as an
//! algebraic trace over the BabyBear field, together with the constraint system
//! that an honest trace satisfies and a verifier for STARK proofs of it.
pub mod layout;
pub mod field;
pub mod register;
pub mod math_ops;
pub mod prog_exec;
pub mod domain;
pub mod air;
pub mod proof_check;
pub mod recursive_prover;
