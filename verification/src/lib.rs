//! kintoun: a small key-value store with a text command language.
//!
//! The library is layered: `cmd` turns text into commands, `storage` holds
//! typed values and applies mutations, `executor` runs commands against a
//! storage, `format` renders results, `repl` drives a line-oriented session
//! and `server` frames requests and responses on the wire.

pub mod cmd;
pub mod executor;
pub mod format;
pub mod message;
pub mod repl;
pub mod server;
pub mod storage;
pub mod text;
