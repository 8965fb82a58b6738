//! Deferred choice of a TLS server configuration for QUIC.
//!
//! A QUIC server hands its transport a crypto configuration before the first
//! byte of a handshake arrives. This crate postpones the final choice: it
//! buffers CRYPTO bytes until a whole TLS `ClientHello` is there, reads the
//! requested server name (SNI) and the offered application protocols (ALPN) out
//! of it, asks a selector for the configuration to use, and replays the buffered
//! bytes into a session that was started from that configuration.
//!
//! - [`wire`] and [`reader`]: big-endian numbers and length-prefixed fields.
//! - [`grammar`]: what a `ClientHello` is, and what a buffer of bytes says.
//! - [`parse`]: the parser, [`parse::try_parse`].
//! - [`encoding`] and [`laws`]: how a `ClientHello` is written, and what holds of
//!   the parser for every buffer.
//! - [`meaning`]: what the parser gives, said byte by byte.
//! - [`config`] and [`session`]: the deferred configuration and its sessions, for
//!   any selector and any implementation of [`CryptoSession`].
//! - [`outside`]: what is taken on trust about `std`, `quinn-proto` and `rustls`.

pub mod config;
pub mod encoding;
pub mod grammar;
pub mod laws;
pub mod meaning;
pub mod outside;
pub mod parse;
pub mod reader;
pub mod session;
pub mod wire;

pub use config::DeferredServerConfig;
pub use session::{ClientHelloView, CryptoSession, DeferredSession, SessionState};
