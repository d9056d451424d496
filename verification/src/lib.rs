//! A two-phase-commit simulation core — a coordinator and a set of
//! participants exchanging messages over per-actor mailboxes, with
//! probabilistic message loss and a timeout-driven abort path — together
//! with a few verified binary-search-tree containers.

pub mod avl;
pub mod bst;
pub mod coordinator;
pub mod fault;
pub mod mailbox;
pub mod participant;
pub mod range_search;
pub mod rbt;
pub mod status;
