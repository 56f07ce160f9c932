//! The matching scheduler: on each tick one partition is served, and in it
//! the demand that has been granted the fewest offers gets the newest offer
//! that is free for it.

pub mod assign;
pub mod tick;
