//! The scenarios that the simulator knows, one strategy each.

pub mod basic;
pub mod data_withholding;
pub mod smart_data_withholding;
pub mod vote_censorship;
