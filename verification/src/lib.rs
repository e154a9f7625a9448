//! Core of a realtime publish/subscribe broker speaking the Pusher Channels
//! protocol: channel naming rules, the per-application connection registry,
//! channel membership with per-kind join/leave semantics, fan-out target
//! selection, the horizontal (multi-node) query protocol, the WebSocket
//! session event dispatcher, and the metrics counters.
//!
//! Everything here is plain data and decisions; transports (HTTP, WebSocket,
//! the message bus) live outside and hand plain values in and out.

pub mod adapters;
pub mod app;
pub mod auth;
pub mod channel;
pub mod channels;
pub mod frames;
pub mod horizontal;
pub mod metrics;
pub mod namespace;
pub mod options;
pub mod server;
pub mod session;
pub mod socket;
pub mod strmap;
