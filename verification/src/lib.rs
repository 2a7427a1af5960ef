//! A DNS message codec with name decompression, and the resolution rules of a
//! small forwarding name server.

pub mod buffer;
pub mod dns_hdr;
pub mod dns_server;
pub mod domain;
pub mod error;
pub mod flags;
pub mod laws;
pub mod name;
pub mod reader;
pub mod round_trip;
pub mod wire;
