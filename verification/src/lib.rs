pub mod commitments;
pub mod types;
pub mod prover;
pub mod verify;

pub use prover::Prover;
pub use verify::Verifier;

