//! Chain-state mirror and subscriber fan-out core for a Zcash indexing proxy.
//!
//! The library mirrors a trusted backend node's best chain and mempool,
//! keeps the mirror consistent under chain reorganizations, and serves
//! consistent snapshots and ordered change events to concurrent consumers.
//! It also provides the typed wire codec for backend RPC responses and the
//! compact-size request framing used by the mixnet transport.

pub mod error;
pub mod framer;
pub mod hexstr;
pub mod primitives;
pub mod store;
pub mod sync;
pub mod hub;
pub mod json;
pub mod response;
pub mod client;
pub mod interface;
mod util;
