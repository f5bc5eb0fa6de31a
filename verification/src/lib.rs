//! Core of a geo-aware DNS forwarding proxy: the message codec, the per-country
//! upstream registry with round-robin selection and health filtering, the response
//! cache with TTL-derived expiry, the health monitor's bookkeeping and the
//! per-request control flow. Sockets, timers and the GeoIP database stay with the
//! caller; everything here works on plain values.

pub mod address;
pub mod cache;
pub mod codec;
pub mod dispatcher;
pub mod geo;
pub mod monitor;
pub mod registry;
pub mod selector;
