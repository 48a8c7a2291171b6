//! Storage of what is known of the peers of a blockchain p2p network.
//!
//! `peer` holds the record, `error` the failures of each operation, `store`
//! the contract that every backend offers and the paging rule, `memory` the
//! volatile store, `codec` the text form of capability lists in the embedded
//! store, `cloud` the attribute sets of the table service, and `retention`
//! the cutoff instants of pruning and of the freshness window.

pub mod cloud;
pub mod codec;
pub mod error;
pub mod memory;
pub mod peer;
pub mod retention;
pub mod store;
