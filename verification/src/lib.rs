//! The decision logic of a messaging bridge: it takes messages from WhatsApp and
//! Telegram, runs them as conversational turns of a language model that may call
//! tools through a gateway, and says what to send back.
//!
//! Nothing in this crate performs I/O, except that it reads the clock. Every client
//! builds the requests to be sent and reads the replies that came back; whoever runs
//! the bridge moves bytes, keeps the locks and waits.

mod clock;
pub mod text;
pub mod json;
pub mod circuit_breaker;
pub mod rate_limit;
pub mod http;
pub mod error;
pub mod telegram_api;
pub mod models;
pub mod mcp_client;
pub mod claude;
pub mod turn;
pub mod whatsapp_api;
pub mod store_client;
pub mod webhook;
pub mod telegram_webhook;
pub mod status;
pub mod config;
