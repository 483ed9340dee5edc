//! Synthetic traffic.

pub mod sim;
