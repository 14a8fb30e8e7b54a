//! Contribution circles with anonymous payouts: members deposit a fixed
//! contribution each round, and once the pot is full one member takes it by
//! proving membership in zero knowledge (Groth16 over BLS12-381), with a
//! nullifier that keeps each identity from claiming twice.

pub mod circle;
pub mod contract;
pub mod encoding;
pub mod fee;
pub mod field;
pub mod groth16;
pub mod host;
pub mod laws;
pub mod outcomes;
pub mod registry;
pub mod scalar;

pub use circle::{pot_target, Circle, DataKey, Error};
pub use contract::Contract;
pub use fee::apply_fee;
pub use field::g1_negation_defined;
pub use groth16::{Proof, VerificationKey};
pub use scalar::Scalar;
