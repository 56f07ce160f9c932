//! Operations on the store of demands.

pub mod queue;
pub mod register;
pub mod resolve;
pub mod sweep;
pub mod take;
