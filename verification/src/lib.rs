//! An in-memory mirror of a Bitcoin node's mempool that assigns each
//! transaction a monotonically increasing arrival index, so that the pool can
//! be replayed to a downstream consumer with parents before descendants.

pub mod errors;
pub mod events;
pub mod framing;
pub mod hexcode;
pub mod loader;
pub mod settings;
pub mod store;
pub mod text;
pub mod txdepth;
