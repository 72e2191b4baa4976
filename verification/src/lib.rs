//! Verified decision logic of a CCTP forwarding deployment on CosmWasm: the
//! request-tracking forward contract, the per-route forwarder and the factory
//! that creates forwarders deterministically.

pub mod common;
pub mod json;
pub mod codec;
pub mod bytes;
pub mod forward;
pub mod shared;
pub mod forwarder;
pub mod factory;
