//! A small key/value server that speaks RESP, the wire protocol of Redis.
//!
//! The crate holds the decisions of such a server and none of its I/O:
//!
//! - [`wire`] gives the byte shapes of requests and replies and the
//!   encoders for them; [`parser`] decodes requests from a read buffer that
//!   may end anywhere; [`roundtrip`] proves that the two agree.
//! - [`storage`] holds the entries, which may expire.
//! - [`commands`] carries out `PING`, `ECHO`, `GET`, `SET`, `INFO`,
//!   `REPLCONF` and `PSYNC`; [`guarantees`] proves what holds of them taken
//!   together.
//! - [`connection`] turns the bytes read off one socket into what to write
//!   and what to publish to replicas.
//! - [`handshake`] is the replica's side of the replication handshake, and
//!   [`replication`] the snapshot that a master hands out.
//! - [`server`], [`server_info`] and [`cli`] describe the server itself and
//!   its launch configuration.
//!
//! Time enters as a number of milliseconds since the Unix epoch, sockets as
//! the bytes read from them: a caller that owns the sockets and the clock
//! drives a [`connection::Connection`] per client.
pub mod cli;
pub mod commands;
pub mod connection;
pub mod guarantees;
pub mod handshake;
pub mod numbers;
pub mod parser;
pub mod replication;
pub mod roundtrip;
pub mod server;
pub mod server_info;
pub mod storage;
pub mod wire;
