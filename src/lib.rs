//! A key/value store split into shards, each a concurrent hash map, with a
//! count of the calls that changed it; a command actor's decisions over it;
//! and helpers that spread work over keys, shards or several stores.
pub mod routing;
pub mod shard;
pub mod store;
pub mod helpers;
pub mod actor;
pub mod guarded;
pub mod laws;
