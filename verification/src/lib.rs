//! Core of an endpoint telemetry pipeline: events produced by collectors are
//! published on a bounded broadcast bus, fanned out to independent worker
//! subscriptions, passed through an ordered processor chain, batched, and
//! flushed to a storage sink. This crate holds the verified data model and
//! pipeline logic; asynchronous transports and process plumbing live outside.

pub mod batch;
pub mod bus;
pub mod chain;
pub mod collector;
pub mod event;
pub mod pipeline;
pub mod query;
pub mod storage;

pub use chain::EventProcessor;
pub use collector::EventCollector;
pub use event::Event;
pub use event::EventConfig;
pub use event::EventError;
pub use event::EventQuery;
pub use event::ProcessFilter;
pub use event::ProcessInfo;
pub use pipeline::EventPipeline;
pub use storage::EventStorage;
