//! Transport and protocol engine for a client that drives an automation
//! engine over a length-prefixed JSON RPC dialect: framing, the tagged wire
//! value codec with its handle table, the guid-addressed object registry,
//! request correlation and the dispatch step that ties them together.
pub mod api;
pub mod codec;
pub mod connection;
pub mod correlator;
pub mod error;
pub mod frame;
pub mod json;
pub mod native;
pub mod registry;
pub mod wire;
