//! Synchronous calls between two processes of Motor OS, through a page of memory
//! that both share.
//!
//! A server listens at a URL ([`server::LocalServer`]); a client connects to it
//! ([`client::ClientConnection`]). The client writes a request into the page and
//! hands its processor to the server; the server reads the request, writes a
//! response into the same page and wakes the client.
//!
//! This crate decides; it makes no system call and touches no shared memory. Each
//! operation hands its caller the call to make, as a value, and takes the reply.
//! What each operation asks for, what it makes of every reply, and what it gives
//! back to the kernel in the end is stated in its contract. What follows from the
//! contracts for the library as a whole is in [`laws`]; what follows for the two ends
//! of a channel in [`end_laws`], for each step of a server in [`server_laws`], and for a
//! caller, in terms of arguments and results, in [`call_laws`].

pub mod call_laws;
pub mod channel;
pub mod client;
pub mod connection;
pub mod end_laws;
pub mod keys;
pub mod laws;
pub mod model;
pub mod server;
pub mod server_laws;
pub mod sys;
pub mod url;
