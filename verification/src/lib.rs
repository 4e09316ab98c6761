//! The decisions of an external node of a rollup: a node that follows the main
//! node, copies its blocks and attests its batches.
//!
//! Every long-running task of the node is a state machine here. A machine says
//! what it is waiting for (`pending`), and `step` takes the event that answers
//! it. The tasks that perform the waiting (RPC calls, database access, timers,
//! channels) live outside and hand plain values in.
pub mod error;
pub mod numbers;
pub mod bytes;
pub mod config;
pub mod genesis;
pub mod attestation;
pub mod config_fetch;
pub mod config_monitor;
pub mod block_fetch;
pub mod head;
pub mod consumer;
pub mod fallback;
pub mod sequential;
pub mod pipeline;
pub mod node;
