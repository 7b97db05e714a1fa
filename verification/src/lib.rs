//! Verification handshake for a restricted-domain chat community.
//!
//! A chat identity is encoded into a tamper-evident token, sent through an
//! untrusted email link, decoded on callback and granted access. The library
//! holds the token codec, the address extractor, the chat-side and web-side
//! decision logic, and the wire-payload parser; transports (chat gateway,
//! email provider, HTTP server) stay outside and are driven through the
//! contracts stated here.

pub mod bot;
pub mod codec;
pub mod digits;
pub mod mailer;
pub mod web;
