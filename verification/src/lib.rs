//! A minimal deterministic chain of blocks: a numeric accumulator whose
//! transitions are validated against keccak-256 commitments, a history of
//! produced blocks and the production of the next candidate block.

pub mod block;
pub mod collator;
pub mod cross_chain;
pub mod digest;
pub mod head;
pub mod history;
pub mod transition;

pub use crate::block::{hash_state, BlockData};
pub use crate::collator::{produce_candidate, ProduceError};
pub use crate::cross_chain::{BuildCrossChain, ChainStatusMessage, CrossChain};
pub use crate::head::{DecodeError, HeadData};
pub use crate::history::HistoryStore;
pub use crate::transition::{execute, StateMismatch};
