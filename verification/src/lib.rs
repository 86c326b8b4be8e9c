//! A networked, persistent key-value store: the wire codec, the bookkeeping of
//! the log-structured storage engine, and the request dispatch of the server.

pub mod cp;
pub mod error;
pub mod kvclient;
pub mod kvsengine;
pub mod kvserver;
pub mod kvstore;
