//! A blockchain fork-management library.
//!
//! The centre of the crate is [`tree::BlockchainTree`]: it keeps a persisted
//! canonical chain together with a bounded forest of speculative side chains,
//! accepts blocks in any arrival order, and promotes a chosen fork to
//! canonical status, reorganising persisted history when necessary.

pub mod block;
pub mod chain;
pub mod dns;
pub mod history;
pub mod list;
pub mod rpc;
pub mod tree;
pub mod validation;
