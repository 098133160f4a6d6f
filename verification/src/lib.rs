//! Call control, audio and signalling logic of a SIP-to-WebSocket voice gateway.

pub mod api;
pub mod audio;
pub mod bridge;
pub mod call;
pub mod clock;
pub mod config;
pub mod metrics;
pub mod rate_limit;
pub mod registry;
pub mod router;
pub mod state;
pub mod stream;
pub mod text;
pub mod trunk;
pub mod wav;
pub mod webhook;
pub mod webhook_client;
pub mod ws;
