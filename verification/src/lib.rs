//! The matching core of a marketplace of computing capacity.
//!
//! Providers publish offers, requestors register demands, and a scheduler
//! binds free offers to the demands, one for each tick, so that the
//! requestor that has been granted the least is served first. Three stores
//! hold the state: the offers, the demands with their queues of assigned
//! offers, and a ledger of grants. Every operation takes the stores it
//! needs by exclusive reference, in the order demands, offers, ledger, and
//! the current time as a value: the library reads no clock and takes no
//! lock.

pub mod demands;
pub mod error;
pub mod integration;
pub mod json;
pub mod matching;
pub mod model;
pub mod node_id;
pub mod offers;
pub mod ordered_map;
pub mod scan;
pub mod state;
pub mod text;
pub mod time;
