//! Control plane of an eBPF-driven zero-trust quarantine firewall.
//!
//! Kernel probes report flows and enforce blocklists; this library keeps the
//! session table, scores sessions with a transparent set of weighted signals,
//! decides what to isolate and for how long, and prepares the audit trail.
//! Scores are exact fixed-point numbers in units of [`triage::UNIT`].

pub mod addr;
pub mod audit;
pub mod config;
pub mod flow;
pub mod keyed;
pub mod metrics;
pub mod mock;
pub mod pipeline;
pub mod protocol;
pub mod seqs;
pub mod text;
pub mod traffic;
pub mod triage;
