//! Protocol logic of a Foxglove WebSocket server: message types, the binary
//! frame formats, and the state that the server keeps about its channels,
//! services and connected clients.

pub mod binary;
pub mod client_state;
pub mod foxglove_state;
pub mod laws;
pub mod messages;
pub mod text;
pub mod text_input;
pub mod utf8;

pub use client_state::ClientState;
pub use foxglove_state::FoxgloveState;
pub use messages::{
    Advertise, Capability, Channel, Parameter, ParameterValues, ServerInfo, Service, Status,
    Unadvertise, UnadvertiseServices,
};

use vstd::prelude::*;

verus! {

/// Identifier of a channel advertised by the server.
pub type ChannelId = u32;

/// Identifier of a service call.
pub type CallId = u32;

/// Identifier of a request (parameters).
pub type RequestId = u32;

/// Identifier that a client chose for one of its subscriptions.
pub type SubscriptionId = u32;

/// Identifier of a service advertised by the server.
pub type ServiceId = u32;

/// Identifier of a channel advertised by a client.
pub type ClientChannelId = u32;

/// Identifier the server gives to a connected client.
pub type ClientId = u32;

} // verus!
