//! The interface that the factory and its forwarders share: the factory's
//! queries, the forwarder's instantiation message and the query answers.

use vstd::prelude::*;

verus! {

/// The factory's queries.
#[derive(Debug, PartialEq, Eq)]
pub enum QueryMsg {
    /// Shared configuration applied to every forwarder the factory created.
    Config {},
    /// The deterministic address of the forwarder for a route, created or not.
    ForwarderAddress { sender_addr: String, dest_chain: String, recipient_addr: String },
    /// A page of the forwarders already created.
    Forwarders { start_after: Option<String>, limit: Option<u32> },
}

/// What the factory sends to instantiate a forwarder.
#[derive(Debug, PartialEq, Eq)]
pub struct ForwarderInstantiateMsg {
    /// The instantiating factory; the forwarder checks that it is the sender.
    pub factory: String,
    pub sender_addr: String,
    pub recipient_addr: String,
    pub dest_chain: String,
}

/// The shared configuration every forwarder reads from its factory.
#[derive(Debug, PartialEq, Eq)]
pub struct FactoryConfigResponse {
    pub owner: String,
    pub forwarder_code_id: u64,
    pub skip_relayer_addr: String,
    pub skip_entrypoint_addr: String,
}

/// The predicted address of a route's forwarder.
#[derive(Debug, PartialEq, Eq)]
pub struct ForwarderAddressResponse {
    pub address: String,
    /// Whether a forwarder has been instantiated for the route.
    pub exists: bool,
}

/// A created forwarder.
#[derive(Debug, PartialEq, Eq)]
pub struct ForwarderInfo {
    pub address: String,
    pub sender_addr: String,
    pub recipient_addr: String,
    pub dest_chain: String,
    pub created_height: u64,
}

/// A page of created forwarders.
#[derive(Debug, PartialEq, Eq)]
pub struct ForwardersResponse {
    pub forwarders: Vec<ForwarderInfo>,
}

} // verus!
