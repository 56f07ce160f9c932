//! Operations on the store of offers.

pub mod list;
pub mod mirror;
pub mod push;
pub mod sweep;
pub mod take;
