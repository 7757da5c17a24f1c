//! Host-side core of a USB game-archive server for Nintendo Switch clients.
//!
//! The crate holds the verified logic of the server: the binary packet
//! layouts of the two client dialects (Tinfoil and Sphaira), the query
//! router, the PFS0 archive parser, the listing index, and the chunked
//! stream framing.  Device discovery, USB transfers and file reads are
//! performed by the surrounding binary, which feeds this library plain
//! bytes and values.

use vstd::prelude::*;

pub mod device;
pub mod entry;
pub mod game;
pub mod json;
pub mod listing;
pub mod nsp;
pub mod packet;
pub mod sphaira;
pub mod strutil;
pub mod tinfoil;
pub mod writer;

verus! {

/// Size of one outbound framing unit: file data is streamed in frames of
/// at most this many bytes.
pub const CHUNK_SIZE: u64 = 0x400000;

} // verus!
