//! Core of a single-connection state machine for a peer-to-peer networking
//! stack: one bidirectional byte transport carrying an authenticated cipher
//! framing, a stream multiplexer on top of it, and per-substream
//! sub-protocols (request/response, notifications, keep-alive ping), all
//! driven through a single non-blocking `read_write` entry point.
//!
//! Layout: [`rw`] is the caller-owned I/O scratchpad; [`noise`] cuts and
//! authenticates cipher records on the raw bytes; [`yamux`] multiplexes
//! substreams over the decrypted stream; [`substream`] runs one
//! sub-protocol per substream; [`connection`] is the driver over all of
//! them; [`multiaddr`] interprets addresses; [`platform`] keeps the book
//! on connections a host environment has open. Clock values are plain
//! `u64` ticks on a monotonic clock.

pub mod bytesutil;
pub mod connection;
pub mod multiaddr;
pub mod noise;
pub mod platform;
pub mod rng;
pub mod rw;
pub mod substream;
pub mod yamux;
