//! A small key-value server core speaking a RESP-like wire protocol:
//! the frame codec, the command grammar, the expiring store, the command
//! executor and the replica handshake, each with a verified contract.

pub mod buffer;
pub mod cmd;
pub mod config;
pub mod db;
pub mod decimal;
pub mod error;
pub mod frame;
pub mod handshake;
pub mod parse;
pub mod roundtrip;
pub mod server;
pub mod stream;
pub mod streaming;
pub mod util;
