//! Loopback sign-in for a desktop application.
//!
//! A sign-in session opens a listener on the loopback interface, sends the
//! browser to a consent page that carries the listener's port, and waits for
//! the browser to come back with a user id and an access token.  This crate
//! holds the rules of that exchange: how a callback's query string is read,
//! how the consent address is written, how a running session is told to
//! stop, and in which order a session does its work.
pub mod callback;
pub mod consent;
pub mod flow;
pub mod shutdown;
pub mod text;
pub mod tokens;
