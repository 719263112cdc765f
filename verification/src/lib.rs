//! Core engine of a multiplexed, reactive RPC wire protocol: frame codec with
//! fragmentation, metadata extension structures, and the session logic that
//! multiplexes logical streams over one connection.

pub mod buffer;
pub mod composite;
pub mod error;
pub mod fragment;
pub mod frame;
pub mod mime;
pub mod payload;
pub mod routing;
pub mod security;
pub mod session;
pub mod tags;
