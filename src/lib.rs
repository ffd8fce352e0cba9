//! Core of a MySQL client: packet framing, the protocol codec, the value
//! model and the connection's decisions, without any I/O of its own.

pub mod bytes;
pub mod framer;
pub mod consts;
pub mod error;
pub mod packets;
pub mod value;
pub mod text;
pub mod opts;
pub mod auth;
pub mod conn;
pub mod local_infile;
