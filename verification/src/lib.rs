//! Veritas: a deterministic belief-aggregation engine.
//!
//! Registered agents submit probability estimates for open questions. Each
//! estimate is folded into the question's running consensus, weighted by the
//! submitter's stake and reputation. All arithmetic is fixed-point integer
//! arithmetic, so every node that replays the same calls reaches the same state.
//!
//! The parts, in the order in which a submission passes through them:
//!
//! - [`agent`]: the registry of agents and their voting weight;
//! - [`belief`]: the store of beliefs and the weighted mean that updates them;
//! - [`submission`]: the orchestrator that takes a submission and logs it;
//! - [`engine`]: the three under one roof, with the replay of calls;
//! - [`fixed`]: the arithmetic that the others share;
//! - [`error`]: why a call can fail;
//! - [`assoc`]: association lists read as finite maps;
//! - [`zkvm`]: what the host hands to the proving backend, and when it hands
//!   over nothing.
//!
//! The crate keeps its state in plain in-memory stores. A host that persists
//! state elsewhere reads the records that a call touches, hands them to the
//! record-level functions of each module (`Agent::registered`,
//! `Belief::absorbed`, `submission::settled` and their like), and writes back
//! what they return.
//!
//! Four choices are worth knowing:
//!
//! - Reputation is dormant. A submission earns an accuracy bonus, which its
//!   receipt reports, but no call changes a score.
//! - Accumulated weight saturates at the largest `u64`. Until it does, the
//!   aggregate of a belief stays within `[0, SCALE]`. Once it has, the
//!   weighted mean divides by less than the true total and may exceed `SCALE`.
//! - Genesis takes a configuration as a whole or not at all. A belief with
//!   an aggregate above `SCALE`, a belief whose id is the largest `u64`, or a
//!   submission with a value above `SCALE` makes genesis fail with
//!   `ValueOutOfRange` and store nothing.
//! - Where several reasons to refuse a call hold at once, the one that the
//!   documentation of the call names first is reported.
pub mod agent;
pub mod assoc;
pub mod belief;
pub mod engine;
pub mod error;
pub mod fixed;
pub mod submission;
pub mod zkvm;
