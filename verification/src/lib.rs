//! A discrete-time simulator of a vote-to-confirm data-availability protocol
//! under adversarial participation.
//!
//! Every block creates one blob, samples a committee, lets the committee vote
//! on all pending blobs as the active strategy prescribes, and confirms the
//! blob that has reached the confirmation depth.

pub mod driver;
pub mod error;
pub mod models;
pub mod nodes;
pub mod sampler;
pub mod scenarios;
pub mod strategy;
pub mod tracker;
pub mod utils;
