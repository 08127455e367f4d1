//! Verified parts of a router that sends requests to the workers whose caches
//! hold the blocks they need.
//!
//! [`indexer`] holds diagnostics of the index of cached blocks. They observe
//! the events the index is built from and never touch the index itself.
//! [`custom_catalog`] makes further worker-selection policies selectable.
//!
//! Times are nanoseconds on the clock of the tracker that holds them. Whatever
//! reads a clock has a counterpart that takes the reading as an argument.

pub mod custom_catalog;
pub mod identity;
pub mod indexer;
pub mod protocols;
pub mod selection;
