//! An in-memory key-value cache with per-key time-to-live expiration, a
//! line-oriented text protocol with batched sub-commands, and the pure state
//! machines behind its connection handling and logging collaborators.
//!
//! All store mutation, protocol parsing and reply formatting is verified;
//! network and file I/O live outside this crate and hand in plain values
//! (byte lines and clock readings in Unix seconds).

pub mod ascii;
pub mod decimal;
pub mod store;
pub mod protocol;
pub mod msgs;
pub mod dispatch;
pub mod laws;
pub mod conn;
pub mod config;
pub mod logclient;
pub mod logproto;
pub mod client;

