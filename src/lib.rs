//! Library side of a command-line companion for a music-streaming account:
//! the local authorization handshake, cursor pagination, duplicate detection
//! and playlist reconciliation, each stated and proved with Verus.
pub mod auth;
pub mod cmds;
pub mod text;
