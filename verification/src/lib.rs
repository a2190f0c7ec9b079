//! Push server for Server-Sent Events (SSE).
//!
//! SSE allow pushing events to browsers over HTTP without polling. [`Server`] holds the connected
//! clients of any number of channels, sends events and heartbeats to them, forgets those that are
//! gone, and decides with authorization tokens who may open a stream.
//!
//! Each executable function states what it does over mathematical models: a channel is a sequence
//! of client states, and each of these knows what was offered to it and what was put into its
//! stream. What each operation does, in terms of its calls alone, is stated and proved in
//! [`operations`], and beside the smaller functions. What relates several of them is in [`laws`],
//! [`history`], [`seal`], [`token`] and [`event`].
//!
//! [`broadcast`] is a smaller server, without channels and tokens.

pub mod broadcast;
pub mod channels;
pub mod client;
pub mod clock;
pub mod encoding;
pub mod event;
pub mod history;
pub mod laws;
pub mod operations;
pub mod path;
pub mod response;
pub mod seal;
pub mod server;
pub mod token;
pub mod transport;

pub use server::Server;
