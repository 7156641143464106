//! Verified core of a BitTorrent tracker's socket workers.
//!
//! A socket worker accepts peer connections, runs them through a TLS
//! handshake and a transport framer, assembles tracker requests
//! (`Announce`, `Scrape`), fans them out to shard-partitioned request
//! workers over a bounded channel mesh, gathers the responses, and
//! writes them back to the originating peer.
//!
//! This crate holds the decision logic of that pipeline: the shard
//! function and dispatch plan, pending-scrape reassembly, the
//! per-connection state machine, the connection tables with their
//! inactivity sweep, the response demultiplexer's routing rules, and
//! the HTTP response framing. Transport I/O, TLS, and the WebSocket
//! framer live outside, in the surrounding binary, which feeds events
//! into these functions and performs the actions they return.

pub mod types;
pub mod shard;
pub mod scrape;
pub mod http;
pub mod conn;
pub mod codec;
pub mod table;
pub mod ws;
