//! Coordination core for a fixed pool of worker processes evaluating a
//! function of unknown, per-worker-varying latency over a generated set of
//! input values.
//!
//! The library holds the scheduling logic itself: the work queue, the greedy
//! dynamic dispatcher, the static round-robin baseline, and the worker-side
//! task loop, together with the termination protocol. A run is driven over a
//! modelled transport — a virtual clock with one latency per worker, standing
//! in for heterogeneous hardware — so every guarantee of a run — how many
//! items go out, that each item is handed out exactly once, that every worker
//! sees exactly one termination sentinel and nothing after it — is stated as
//! a contract and proved for every queue, worker count and latency table.

pub mod dynamic_policy;
pub mod message;
pub mod queue;
pub mod report;
pub mod sequence;
pub mod static_policy;
pub mod work;
pub mod worker;
