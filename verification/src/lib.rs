//! A mock MELSEC MC-protocol endpoint: a word-addressable device store, the
//! MC3E/MC4E frame codec around it and the request handler that serves reads,
//! writes and the echo command from that store.

pub mod assignment;
pub mod device_key;
pub mod device_map;
pub mod frame;
pub mod handler;
pub mod params;
pub mod registry;
pub mod response;
pub mod server;
pub mod text;

pub use server::MockServer;
