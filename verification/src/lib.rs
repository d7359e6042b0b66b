//! # EventSource
//!
//! EventSource is a library for reading from Server-Sent Events endpoints. It
//! parses the `text/event-stream` format line by line and decides when to
//! connect, what to ask for and what to hand out, so that its user sees a
//! stream of events and reconnects happen behind it.
//!
//! The library performs no I/O of its own. A driver owns the transport and
//! the clock: it reports what happened to [`client::Client::step`] and does
//! what the answer says.
//!
//! - [`event`]: events and the line parser.
//! - [`wire`]: events as text, and that writing and reading agree.
//! - [`lines`]: cutting a body that arrives in pieces into lines.
//! - [`response`]: what a response must be to open a stream.
//! - [`client`]: the reconnecting client.
//! - [`error`]: the errors that a pull can surface.
//! - [`text`]: helpers on characters and decimal numbers.

pub mod client;
pub mod error;
pub mod event;
pub mod lines;
pub mod response;
pub mod text;
pub mod wire;
