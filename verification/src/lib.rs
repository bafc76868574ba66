//! A local-loopback OAuth authorization-code login coordinator.
//!
//! One login attempt builds the browser-facing authorization URL, stands
//! behind a short-lived loopback HTTP listener that intercepts exactly one
//! redirect, extracts the authorization code from the callback query,
//! interprets the code-for-token exchange response, and decides what to
//! hand the host application and the waiting browser tab. Everything here
//! is pure decision and parsing logic over plain bytes; the listener, the
//! HTTP client and the desktop shell live outside and feed events in.

pub mod ascii;
pub mod authorize;
pub mod callback;
pub mod encoding;
pub mod exchange;
pub mod flow;
pub mod token;
