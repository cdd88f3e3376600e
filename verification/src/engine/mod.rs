//! Simulation engine logic: epochs, the snapshot ring, the ingress queue,
//! the decisions of the tick engine, the tick loop and the egress workers,
//! configuration, the arena inputs of a world, and metrics.

pub mod apply;
pub mod backoff;
pub mod epoch;
pub mod metrics;
pub mod ingress;
pub mod ring;
pub mod tick;
pub mod tick_thread;
pub mod config;
pub mod realtime;
pub mod batched;
pub mod egress;
pub mod lockstep;
pub mod overlay;
pub mod setup;
