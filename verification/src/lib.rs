//! Communication and state-tracking core of a test-network orchestrator:
//! the framing and liveness rules of the agent/node link, and the
//! per-environment cache of recent blocks, transactions and peer reputation.

pub mod block;
pub mod cache;
pub mod clock;
pub mod codec;
pub mod heartbeat;
pub mod height_index;
pub mod link;
pub mod metrics;
pub mod peer;
pub mod rpc;
pub mod strmap;
