//! The TCP side of kintoun: frame codec and per-connection request handling.
//! The accept loop and socket I/O live with the binary.

pub mod codec;
pub mod connection;
