//! A verified core for the FRI low-degree test: its parameter bundle, the
//! folding arithmetic of the commit phase and the checks of the query phase.

pub mod air;
pub mod codec;
pub mod commit_phase;
pub mod completeness;
pub mod config;
pub mod field;
pub mod fold;
pub mod merkle;
pub mod fri_proof;
pub mod transcript;
pub mod query_phase;

pub use commit_phase::{prove, ProveError};
pub use config::{FriConfig, FriConfigImpl};
pub use fri_proof::{CommitPhaseStep, FriChallenges, FriProof, QueryProof};
pub use query_phase::{verify, verify_challenges, FriError};
pub use transcript::Transcript;
