//! Messages of the Foxglove WebSocket protocol, as plain values.
//!
//! JSON messages are written and read by the embedding program; the library
//! decides which of them go where.

use vstd::prelude::*;

use crate::RequestId;

verus! {

/// Opcodes of the binary frames that the server sends.
#[derive(PartialEq, Eq, Structural, Debug, Clone, Copy)]
pub enum BinaryOpcode {
    MessageData,
    Time,
    ServiceCallResponse,
}

/// The byte that stands for a server opcode on the wire.
pub open spec fn spec_binary_opcode_byte(op: BinaryOpcode) -> u8 {
    match op {
        BinaryOpcode::MessageData => 1,
        BinaryOpcode::Time => 2,
        BinaryOpcode::ServiceCallResponse => 3,
    }
}

impl BinaryOpcode {
    /// The byte that stands for this opcode on the wire.
    pub fn byte(&self) -> (b: u8)
        ensures
            b == spec_binary_opcode_byte(*self),
    {
        match self {
            BinaryOpcode::MessageData => 1,
            BinaryOpcode::Time => 2,
            BinaryOpcode::ServiceCallResponse => 3,
        }
    }
}

/// Opcodes of the binary frames that a client sends.
#[derive(PartialEq, Eq, Structural, Debug, Clone, Copy)]
pub enum ClientBinaryOpcode {
    MessageData,
    ServiceCallRequest,
}

/// The byte that stands for a client opcode on the wire.
pub open spec fn spec_client_opcode_byte(op: ClientBinaryOpcode) -> u8 {
    match op {
        ClientBinaryOpcode::MessageData => 1,
        ClientBinaryOpcode::ServiceCallRequest => 2,
    }
}

impl ClientBinaryOpcode {
    /// The byte that stands for this opcode on the wire.
    pub fn byte(&self) -> (b: u8)
        ensures
            b == spec_client_opcode_byte(*self),
    {
        match self {
            ClientBinaryOpcode::MessageData => 1,
            ClientBinaryOpcode::ServiceCallRequest => 2,
        }
    }

    /// The client opcode that a byte stands for, if any.
    pub fn from_byte(b: u8) -> (op: Option<ClientBinaryOpcode>)
        ensures
            match op {
                Some(o) => spec_client_opcode_byte(o) == b,
                None => b != 1 && b != 2,
            },
    {
        if b == 1 {
            Some(ClientBinaryOpcode::MessageData)
        } else if b == 2 {
            Some(ClientBinaryOpcode::ServiceCallRequest)
        } else {
            None
        }
    }
}

/// A capability that the server announces in its server info.
#[derive(PartialEq, Eq, Structural, Debug, Clone, Copy)]
pub enum Capability {
    ClientPublish,
    Parameters,
    ParametersSubscribe,
    Time,
    Services,
    ConnectionGraph,
    Assets,
}

/// The server info message, sent to every client when it connects.
#[derive(Debug, Clone)]
pub struct ServerInfo {
    pub op: String,
    pub name: String,
    pub capabilities: Vec<Capability>,
    pub supported_encodings: Vec<String>,
    /// Key-value pairs, each key at most once.
    pub metadata: Vec<(String, String)>,
    pub session_id: Option<String>,
}

impl ServerInfo {
    /// No metadata key occurs twice.
    pub open spec fn wf(&self) -> bool {
        forall|i: int, j: int|
            0 <= i < j < self.metadata@.len() ==> (#[trigger] self.metadata@[i]).0@ != (#[trigger] self.metadata@[j]).0@
    }
}

/// Severity of a status message.
#[derive(PartialEq, Eq, Structural, Debug, Clone, Copy)]
pub enum StatusLevel {
    Info,
    Warning,
    Error,
}

/// The number that stands for a status level in a status message.
pub open spec fn spec_level_code(level: StatusLevel) -> u8 {
    match level {
        StatusLevel::Info => 0,
        StatusLevel::Warning => 1,
        StatusLevel::Error => 2,
    }
}

impl StatusLevel {
    /// The number that stands for this level in a status message.
    pub fn code(&self) -> (c: u8)
        ensures
            c == spec_level_code(*self),
    {
        match self {
            StatusLevel::Info => 0,
            StatusLevel::Warning => 1,
            StatusLevel::Error => 2,
        }
    }
}

/// A status message, sent by the server to tell a client about a problem.
#[derive(Debug, Clone)]
pub struct Status {
    pub op: String,
    pub level: u8,
    pub message: String,
    pub id: Option<String>,
}

/// `s` is the status message of the given level with the given text.
pub open spec fn status_says(s: Status, level: StatusLevel, text: Seq<char>) -> bool {
    &&& s.op@ == "status"@
    &&& s.level == spec_level_code(level)
    &&& s.message@ == text
    &&& s.id is None
}

/// Each status of `v` says what the matching entry of `expected` gives.
pub open spec fn statuses_say(v: Seq<Status>, expected: Seq<(StatusLevel, Seq<char>)>) -> bool {
    &&& v.len() == expected.len()
    &&& forall|i: int|
        0 <= i < v.len() ==> status_says(#[trigger] v[i], expected[i].0, expected[i].1)
}

/// Builds the status message of the given level with the given text.
pub fn make_status(level: StatusLevel, message: String) -> (s: Status)
    ensures
        status_says(s, level, message@),
{
    Status { op: String::from_str("status"), level: level.code(), message, id: None }
}

/// A client channel notice (same layout as a status message).
#[derive(Debug, Clone)]
pub struct ClientChannel {
    pub op: String,
    pub level: u8,
    pub message: String,
    pub id: Option<String>,
}

/// Asks clients to drop earlier status messages.
#[derive(Debug, Clone)]
pub struct RemoveStatus {
    pub op: String,
    pub status_ids: Vec<String>,
}

/// Announces channels.
#[derive(Debug, Clone)]
pub struct Advertise {
    pub op: String,
    pub channels: Vec<Channel>,
}

/// A channel of messages, advertised by the server or by a client.
#[derive(Debug, Clone)]
pub struct Channel {
    pub id: u32,
    pub topic: String,
    pub encoding: String,
    pub schema_name: String,
    pub schema: String,
    pub schema_encoding: Option<String>,
}

/// A copy of an optional string.
pub fn copy_opt_string(o: &Option<String>) -> (r: Option<String>)
    ensures
        r == *o,
{
    match o {
        Some(s) => Some(s.clone()),
        None => None,
    }
}

impl Channel {
    /// A copy of this channel, equal to it.
    pub fn duplicate(&self) -> (r: Channel)
        ensures
            r == *self,
    {
        Channel {
            id: self.id,
            topic: self.topic.clone(),
            encoding: self.encoding.clone(),
            schema_name: self.schema_name.clone(),
            schema: self.schema.clone(),
            schema_encoding: copy_opt_string(&self.schema_encoding),
        }
    }
}

/// Withdraws channels.
#[derive(Debug, Clone)]
pub struct Unadvertise {
    pub op: String,
    pub channel_ids: Vec<u32>,
}

/// Answers parameter requests, or tells a client that parameters changed.
#[derive(Debug, Clone)]
pub struct ParameterValues {
    pub op: String,
    pub parameters: Vec<Parameter>,
    pub id: Option<u32>,
}

/// A named parameter.
#[derive(Debug, Clone)]
pub struct Parameter {
    pub name: String,
    /// The parameter's value, as JSON text.
    pub value: String,
    pub type_: Option<String>,
    pub id: Option<String>,
}

impl Parameter {
    /// A copy of this parameter, equal to it.
    pub fn duplicate(&self) -> (r: Parameter)
        ensures
            r == *self,
    {
        Parameter {
            name: self.name.clone(),
            value: self.value.clone(),
            type_: copy_opt_string(&self.type_),
            id: copy_opt_string(&self.id),
        }
    }
}

/// Announces services.
#[derive(Debug, Clone)]
pub struct AdvertiseServices {
    pub op: String,
    pub services: Vec<Service>,
}

/// A service that clients can call.
#[derive(Debug, Clone)]
pub struct Service {
    pub id: u32,
    pub name: String,
    pub type_: String,
    pub request: Option<ServiceSchema>,
    pub response: Option<ServiceSchema>,
}

/// How the request or the response of a service is encoded.
#[derive(Debug, Clone)]
pub struct ServiceSchema {
    pub encoding: String,
    pub schema_name: String,
    pub schema_encoding: String,
    pub schema: String,
}

impl ServiceSchema {
    /// A copy of this schema, equal to it.
    pub fn duplicate(&self) -> (r: ServiceSchema)
        ensures
            r == *self,
    {
        ServiceSchema {
            encoding: self.encoding.clone(),
            schema_name: self.schema_name.clone(),
            schema_encoding: self.schema_encoding.clone(),
            schema: self.schema.clone(),
        }
    }
}

/// A copy of an optional schema.
pub fn copy_opt_schema(o: &Option<ServiceSchema>) -> (r: Option<ServiceSchema>)
    ensures
        r == *o,
{
    match o {
        Some(s) => Some(s.duplicate()),
        None => None,
    }
}

impl Service {
    /// A copy of this service, equal to it.
    pub fn duplicate(&self) -> (r: Service)
        ensures
            r == *self,
    {
        Service {
            id: self.id,
            name: self.name.clone(),
            type_: self.type_.clone(),
            request: copy_opt_schema(&self.request),
            response: copy_opt_schema(&self.response),
        }
    }
}

/// Withdraws services.
#[derive(Debug, Clone)]
pub struct UnadvertiseServices {
    pub op: String,
    pub service_ids: Vec<u32>,
}

/// Changes of the connection graph.
#[derive(Debug, Clone)]
pub struct ConnectionGraphUpdate {
    pub op: String,
    pub published_topics: Vec<Topic>,
    pub subscribed_topics: Vec<Topic>,
    pub advertised_services: Vec<Service>,
    pub removed_topics: Vec<String>,
    pub removed_services: Vec<String>,
}

/// A topic of the connection graph.
#[derive(Debug, Clone)]
pub struct Topic {
    pub name: String,
    pub publisher_ids: Vec<String>,
    pub subscriber_ids: Vec<String>,
}

/// Tells a client that a service call failed.
#[derive(Debug, Clone)]
pub struct ServiceCallFailure {
    pub op: String,
    pub service_id: u32,
    pub call_id: u32,
    pub message: String,
}

/// A client asks for subscriptions.
#[derive(Debug, Clone)]
pub struct Subscribe {
    pub op: String,
    pub subscriptions: Vec<Subscription>,
}

/// One subscription: the id the client chose and the channel it wants.
#[derive(Debug, Clone, Copy)]
pub struct Subscription {
    pub id: u32,
    pub channel_id: u32,
}

/// A client ends subscriptions.
#[derive(Debug, Clone)]
pub struct Unsubscribe {
    pub op: String,
    pub subscription_ids: Vec<u32>,
}

/// A client announces channels it will publish on.
#[derive(Debug, Clone)]
pub struct ClientAdvertise {
    pub op: String,
    pub channels: Vec<Channel>,
}

/// A client withdraws channels it published on.
#[derive(Debug, Clone)]
pub struct ClientUnadvertise {
    pub op: String,
    pub channel_ids: Vec<RequestId>,
}

/// A client asks for the values of parameters.
#[derive(Debug, Clone)]
pub struct GetParameters {
    pub op: String,
    pub parameter_names: Vec<String>,
    pub id: Option<u32>,
}

/// A client sets parameters.
#[derive(Debug, Clone)]
pub struct SetParameters {
    pub op: String,
    pub parameters: Vec<Parameter>,
    pub id: Option<RequestId>,
}

/// A client asks to be told when parameters change.
#[derive(Debug, Clone)]
pub struct SubscribeParameterUpdate {
    pub op: String,
    pub parameter_names: Vec<String>,
}

/// A client no longer wants to be told when parameters change.
#[derive(Debug, Clone)]
pub struct UnsubscribeParameterUpdate {
    pub op: String,
    pub parameter_names: Vec<String>,
}

} // verus!
