//! The state that the server shares between its connections, and the
//! decisions it takes on each request.

use std::collections::HashMap;

use vstd::prelude::*;
use vstd::utf8::{decode_utf8, encode_utf8, valid_utf8};

use crate::binary::{
    decode_client_frame, encode_message_data, encode_service_call_response_prefix,
    message_data_frame, read_client_frame, service_call_response_prefix, ClientFrame,
    ClientFrameSpec, FrameError,
};
use crate::client_state::{
    fresh_client, has_param, param_subscribe_spec, param_unsubscribe_spec, string_views,
    ClientState, ClientView,
};
use crate::messages::{
    make_status, status_says, statuses_say, Advertise, AdvertiseServices, Capability, Channel,
    Parameter, ParameterValues, ServerInfo, Service, Status, StatusLevel, Subscription,
    Unadvertise, UnadvertiseServices,
};
use crate::text::{decimal, decimal_string, format_with_number, with_number};
use crate::utf8::{string_from_utf8_lossy, utf8_lossy};
use crate::{ChannelId, ClientChannelId, ClientId, ServiceId};

verus! {

broadcast use vstd::std_specs::hash::group_hash_axioms;

/// The shared state, as mathematical values.
#[verifier::ext_equal]
pub struct StateView {
    pub next_client_id: u32,
    pub clients: Map<u32, ClientView>,
    pub next_channel_id: u32,
    pub channels: Map<u32, Channel>,
    pub next_service_id: u32,
    pub services: Map<u32, Service>,
}

impl StateView {
    /// Every client is well formed and has an id below the next one; every
    /// channel and every service is stored under its own id, below the next
    /// channel id (services take their ids from the same counter).
    pub open spec fn wf(self) -> bool {
        &&& self.clients.dom().finite()
        &&& forall|c: u32| #[trigger] self.clients.contains_key(c) ==> self.clients[c].wf() && c < self.next_client_id
        &&& forall|k: u32| #[trigger] self.channels.contains_key(k) ==> self.channels[k].id == k && k < self.next_channel_id
        &&& forall|k: u32| #[trigger] self.services.contains_key(k) ==> self.services[k].id == k && k < self.next_channel_id
    }

    /// The state in which client `cid` is `c`.
    pub open spec fn with_client(self, cid: u32, c: ClientView) -> StateView {
        StateView { clients: self.clients.insert(cid, c), ..self }
    }
}

/// An optional item as a sequence of at most one item.
pub open spec fn opt_seq<A>(o: Option<A>) -> Seq<A> {
    match o {
        Some(a) => seq![a],
        None => Seq::empty(),
    }
}

/// What one subscription of a subscribe request does: the new state, the
/// status sent to the client if it is refused, and the channel to announce
/// to the listener if it is accepted.
pub open spec fn subscribe_step(s: StateView, cid: u32, sub: Subscription) -> (
    StateView,
    Option<(StatusLevel, Seq<char>)>,
    Option<u32>,
) {
    let c = s.clients[cid];
    let chan = sub.channel_id;
    if c.subscriptions.contains_key(sub.id) {
        (s, Some((StatusLevel::Error, with_number("Client subscription id "@, sub.id as nat, " was already used; ignoring subscription"@))), None)
    } else if !s.channels.contains_key(chan) {
        (s, Some((StatusLevel::Warning, with_number("Channel "@, chan as nat, " is not available; ignoring subscription"@))), None)
    } else if c.by_channel.contains_key(chan) {
        (s, Some((StatusLevel::Warning, with_number("Client is already subscribed to channel "@, chan as nat, "; ignoring subscription"@))), None)
    } else {
        (
            s.with_client(cid, c.with_subscription(sub.id, chan)),
            None,
            Some(chan),
        )
    }
}

/// What a subscribe request does, subscription after subscription: the new
/// state, the statuses sent to the client, and the channels announced to the listener.
pub open spec fn subscribe_spec(s: StateView, cid: u32, subs: Seq<Subscription>) -> (
    StateView,
    Seq<(StatusLevel, Seq<char>)>,
    Seq<u32>,
)
    decreases subs.len(),
{
    if subs.len() == 0 {
        (s, Seq::empty(), Seq::empty())
    } else {
        let prev = subscribe_spec(s, cid, subs.drop_last());
        let step = subscribe_step(prev.0, cid, subs.last());
        (step.0, prev.1 + opt_seq(step.1), prev.2 + opt_seq(step.2))
    }
}

/// What one id of an unsubscribe request does: the new state, the status
/// sent to the client if there is no such subscription, and the channel of
/// the subscription that ended.
pub open spec fn unsubscribe_step(s: StateView, cid: u32, sub: u32) -> (
    StateView,
    Option<(StatusLevel, Seq<char>)>,
    Option<u32>,
) {
    let c = s.clients[cid];
    if !c.subscriptions.contains_key(sub) {
        (s, Some((StatusLevel::Warning, with_number("Client subscription id "@, sub as nat, " did not exist; ignoring unsubscription"@))), None)
    } else {
        (s.with_client(cid, c.without_subscription(sub)), None, Some(c.subscriptions[sub]))
    }
}

/// The subscriptions of an unsubscribe request, ended one after the other:
/// the new state, the statuses sent to the client, and the channels whose
/// subscription ended.
pub open spec fn unsubscribe_removals(s: StateView, cid: u32, subs: Seq<u32>) -> (
    StateView,
    Seq<(StatusLevel, Seq<char>)>,
    Seq<u32>,
)
    decreases subs.len(),
{
    if subs.len() == 0 {
        (s, Seq::empty(), Seq::empty())
    } else {
        let prev = unsubscribe_removals(s, cid, subs.drop_last());
        let step = unsubscribe_step(prev.0, cid, subs.last());
        (step.0, prev.1 + opt_seq(step.1), prev.2 + opt_seq(step.2))
    }
}

/// What an unsubscribe request does: the new state, the statuses sent to the
/// client, and the channel of each subscription that ended, in order (for the
/// listener's `on_unsubscribe`).
pub open spec fn unsubscribe_spec(s: StateView, cid: u32, subs: Seq<u32>) -> (
    StateView,
    Seq<(StatusLevel, Seq<char>)>,
    Seq<u32>,
) {
    unsubscribe_removals(s, cid, subs)
}

/// What one channel of a client advertisement does: the new state, the status
/// sent to the client if the id is taken, and the channel to announce to the listener.
pub open spec fn advertise_step(s: StateView, cid: u32, ch: Channel) -> (
    StateView,
    Option<(StatusLevel, Seq<char>)>,
    Option<Channel>,
) {
    let c = s.clients[cid];
    if c.advertisements.contains_key(ch.id) {
        (s, Some((StatusLevel::Warning, with_number("Failed to add client channel "@, ch.id as nat, ""@))), None)
    } else {
        (s.with_client(cid, c.with_advertisement(ch)), None, Some(ch))
    }
}

/// What a client advertisement does, channel after channel.
pub open spec fn advertise_spec(s: StateView, cid: u32, chs: Seq<Channel>) -> (
    StateView,
    Seq<(StatusLevel, Seq<char>)>,
    Seq<Channel>,
)
    decreases chs.len(),
{
    if chs.len() == 0 {
        (s, Seq::empty(), Seq::empty())
    } else {
        let prev = advertise_spec(s, cid, chs.drop_last());
        let step = advertise_step(prev.0, cid, chs.last());
        (step.0, prev.1 + opt_seq(step.1), prev.2 + opt_seq(step.2))
    }
}

/// What one id of a client unadvertisement does: the new state, the status
/// sent to the client if it has no such channel, and the id to announce to the listener.
pub open spec fn unadvertise_step(s: StateView, cid: u32, id: u32) -> (
    StateView,
    Option<(StatusLevel, Seq<char>)>,
    Option<u32>,
) {
    let c = s.clients[cid];
    if !c.advertisements.contains_key(id) {
        (s, Some((StatusLevel::Warning, with_number("Failed to remove client channel "@, id as nat, ""@))), None)
    } else {
        (s.with_client(cid, c.without_advertisement(id)), None, Some(id))
    }
}

/// What a client unadvertisement does, id after id.
pub open spec fn unadvertise_spec(s: StateView, cid: u32, ids: Seq<u32>) -> (
    StateView,
    Seq<(StatusLevel, Seq<char>)>,
    Seq<u32>,
)
    decreases ids.len(),
{
    if ids.len() == 0 {
        (s, Seq::empty(), Seq::empty())
    } else {
        let prev = unadvertise_spec(s, cid, ids.drop_last());
        let step = unadvertise_step(prev.0, cid, ids.last());
        (step.0, prev.1 + opt_seq(step.1), prev.2 + opt_seq(step.2))
    }
}

/// Replacing a client of a well-formed state by a well-formed client keeps the state well formed.
pub proof fn lemma_with_client_wf(s: StateView, cid: u32, c: ClientView)
    requires
        s.wf(),
        s.clients.contains_key(cid),
        c.wf(),
    ensures
        s.with_client(cid, c).wf(),
{
    let t = s.with_client(cid, c);
    assert forall|k: u32| #[trigger] t.clients.contains_key(k) implies t.clients[k].wf() && k < t.next_client_id by {
        if k != cid {
            assert(s.clients.contains_key(k));
        }
    }
}

/// `ch` with the id `id`.
pub open spec fn channel_with_id(ch: Channel, id: u32) -> Channel {
    Channel { id, ..ch }
}

/// `sv` with the id `id`.
pub open spec fn service_with_id(sv: Service, id: u32) -> Service {
    Service { id, ..sv }
}

/// The state after `ch` was stored under the next channel id, and that id.
pub open spec fn add_channel_spec(s: StateView, ch: Channel) -> (StateView, u32) {
    let id = s.next_channel_id;
    (StateView { next_channel_id: (id + 1) as u32, channels: s.channels.insert(id, channel_with_id(ch, id)), ..s }, id)
}

/// The state without channel `id`.
pub open spec fn remove_channel_spec(s: StateView, id: u32) -> StateView {
    StateView { channels: s.channels.remove(id), ..s }
}

/// The state after `sv` was stored under the next channel id, and that id.
pub open spec fn add_service_spec(s: StateView, sv: Service) -> (StateView, u32) {
    let id = s.next_channel_id;
    (StateView { next_channel_id: (id + 1) as u32, services: s.services.insert(id, service_with_id(sv, id)), ..s }, id)
}

/// The state without service `id`.
pub open spec fn remove_service_spec(s: StateView, id: u32) -> StateView {
    StateView { services: s.services.remove(id), ..s }
}

/// The state after a client connected from `remote` (under the next client id).
pub open spec fn connect_spec(s: StateView, remote: Seq<char>) -> StateView {
    StateView {
        next_client_id: (s.next_client_id + 1) as u32,
        clients: s.clients.insert(s.next_client_id, fresh_client(remote)),
        ..s
    }
}

/// The state after client `cid` disconnected.
pub open spec fn disconnect_spec(s: StateView, cid: u32) -> StateView {
    StateView { clients: s.clients.remove(cid), ..s }
}

/// `v` lists each channel of `m` exactly once (in some order).
pub open spec fn lists_channels(v: Seq<Channel>, m: Map<u32, Channel>) -> bool {
    &&& forall|i: int| 0 <= i < v.len() ==> m.contains_key(#[trigger] v[i].id) && m[v[i].id] == v[i]
    &&& forall|k: u32| #[trigger] m.contains_key(k) ==> exists|i: int| 0 <= i < v.len() && v[i].id == k
    &&& forall|i: int, j: int| 0 <= i < j < v.len() ==> v[i].id != v[j].id
}

/// `v` lists each service of `m` exactly once (in some order).
pub open spec fn lists_services(v: Seq<Service>, m: Map<u32, Service>) -> bool {
    &&& forall|i: int| 0 <= i < v.len() ==> m.contains_key(#[trigger] v[i].id) && m[v[i].id] == v[i]
    &&& forall|k: u32| #[trigger] m.contains_key(k) ==> exists|i: int| 0 <= i < v.len() && v[i].id == k
    &&& forall|i: int, j: int| 0 <= i < j < v.len() ==> v[i].id != v[j].id
}

/// `v` lists exactly the keys of `m`, each once.
pub open spec fn lists_keys<V>(v: Seq<u32>, m: Map<u32, V>) -> bool {
    &&& v.no_duplicates()
    &&& forall|k: u32| m.contains_key(k) <==> v.contains(k)
}

/// The parameters of `ps` that client `c` follows, in their order.
pub open spec fn params_for(c: ClientView, ps: Seq<Parameter>) -> Seq<Parameter> {
    ps.filter(|p: Parameter| has_param(c.params, p.name@))
}

/// What the server makes of a binary frame from a client, as mathematical values.
pub enum BinaryOutcome {
    /// The frame is refused with an error status of this text.
    Refused(Seq<char>),
    /// A message on a channel the client advertised, for the listener's `on_client_message`.
    ClientMessage { channel_id: u32, payload: Seq<u8> },
    /// A service call, for the listener's `on_service_request`; its response
    /// frame is `response_prefix` followed by the listener's answer.
    ServiceCall { service_id: u32, call_id: u32, encoding: Seq<char>, payload: Seq<u8>, response_prefix: Seq<u8> },
}

/// The text of the status that refuses an unreadable frame.
pub open spec fn frame_error_text(e: FrameError) -> Seq<char> {
    match e {
        FrameError::TooShort { len } => with_number("Received invalid binary message of size "@, len as nat, ""@),
        FrameError::ServiceCallTooShort { len } => with_number("Not enough bytes in message: expect 13 got: "@, len as nat, ""@),
        FrameError::EncodingTruncated { expected, len } => with_number("Not enough bytes in message: expect "@, expected as nat, " got: "@) + decimal(len as nat),
        FrameError::UnknownOpcode { opcode } => with_number("Received binary message with invalid operation "@, opcode as nat, ""@),
    }
}

/// The encoding name of a service call: "json" where the request names
/// none, else its bytes read as UTF-8 (invalid sequences replaced).
pub open spec fn call_encoding(bytes: Seq<u8>) -> Seq<char> {
    if bytes.len() == 0 { "json"@ } else { utf8_lossy(bytes) }
}

/// What the server makes of the binary frame `msg` of client `cid`.
pub open spec fn binary_input_spec(s: StateView, cid: u32, msg: Seq<u8>) -> BinaryOutcome {
    match decode_client_frame(msg) {
        Err(e) => BinaryOutcome::Refused(frame_error_text(e)),
        Ok(ClientFrameSpec::MessageData { channel_id, payload }) =>
            if s.clients[cid].advertisements.contains_key(channel_id) {
                BinaryOutcome::ClientMessage { channel_id, payload }
            } else {
                BinaryOutcome::Refused(with_number("Channel "@, channel_id as nat, " not registered by client "@) + s.clients[cid].remote)
            },
        Ok(ClientFrameSpec::ServiceCallRequest { service_id, call_id, encoding, payload }) =>
            if s.services.contains_key(service_id) {
                BinaryOutcome::ServiceCall {
                    service_id,
                    call_id,
                    encoding: call_encoding(encoding),
                    payload,
                    response_prefix: service_call_response_prefix(service_id, call_id, encode_utf8(call_encoding(encoding))),
                }
            } else {
                BinaryOutcome::Refused(with_number("Unknown service "@, service_id as nat, ""@))
            },
    }
}

/// What the server makes of a binary frame from a client.
pub enum BinaryInput {
    /// The frame is refused; send this status to the client.
    Refused(Status),
    /// Hand this message to the listener's `on_client_message`.
    ClientMessage { channel_id: u32, payload: Vec<u8> },
    /// Hand this call to the listener's `on_service_request`, then send
    /// `response_prefix` followed by its answer as a binary frame.
    ServiceCall { service_id: u32, call_id: u32, encoding: String, payload: Vec<u8>, response_prefix: Vec<u8> },
}

/// `r` is what `spec` describes.
pub open spec fn binary_input_matches(r: BinaryInput, spec: BinaryOutcome) -> bool {
    match (r, spec) {
        (BinaryInput::Refused(st), BinaryOutcome::Refused(text)) => status_says(st, StatusLevel::Error, text),
        (BinaryInput::ClientMessage { channel_id, payload }, BinaryOutcome::ClientMessage { channel_id: c2, payload: p2 }) =>
            channel_id == c2 && payload@ == p2,
        (
            BinaryInput::ServiceCall { service_id, call_id, encoding, payload, response_prefix },
            BinaryOutcome::ServiceCall { service_id: s2, call_id: c2, encoding: e2, payload: p2, response_prefix: r2 },
        ) => service_id == s2 && call_id == c2 && encoding@ == e2 && payload@ == p2 && response_prefix@ == r2,
        _ => false,
    }
}

/// The status sent when a service call cannot be answered because no
/// listener serves it.
pub fn no_implementation_status(service_id: ServiceId) -> (st: Status)
    ensures
        status_says(st, StatusLevel::Error, with_number("No implementation of "@, service_id as nat, ""@)),
{
    make_status(StatusLevel::Error, format_with_number("No implementation of ", service_id as u64, ""))
}

/// Whether some client is subscribed to `chan`.
pub open spec fn has_subscriber(s: StateView, chan: u32) -> bool {
    exists|c: u32| #[trigger] s.clients.contains_key(c) && s.clients[c].by_channel.contains_key(chan)
}

/// Common data, shared by all connections.
pub struct FoxgloveState {
    pub server_info: ServerInfo,
    pub next_client_id: u32,
    pub clients: HashMap<ClientId, ClientState>,
    pub next_channel_id: u32,
    pub channels: HashMap<ChannelId, Channel>,
    pub next_service_id: u32,
    pub services: HashMap<ServiceId, Service>,
}

impl View for FoxgloveState {
    type V = StateView;

    open spec fn view(&self) -> StateView {
        StateView {
            next_client_id: self.next_client_id,
            clients: self.clients@.map_values(|c: ClientState| c@),
            next_channel_id: self.next_channel_id,
            channels: self.channels@,
            next_service_id: self.next_service_id,
            services: self.services@,
        }
    }
}

impl FoxgloveState {
    /// The state is well formed, and no metadata key of the server info occurs twice.
    pub open spec fn wf(&self) -> bool {
        self@.wf() && self.server_info.wf()
    }

    /// Whether some client is subscribed to `chan`.
    pub fn channel_has_subscriber(&self, chan: ChannelId) -> (r: bool)
        ensures
            r == has_subscriber(self@, chan),
    {
        for (cid, client) in it: self.clients.iter()
            invariant
                forall|j: int| 0 <= j < it.index() ==> !(#[trigger] it.seq()[j]).1.subscriptions_by_channel@.contains_key(chan),
        {
            if client.subscriptions_by_channel.contains_key(&chan) {
                assert(self.clients@.contains_key(*cid));
                assert(self.clients@[*cid] == *client);
                assert(self@.clients.contains_key(*cid));
                return true;
            }
        }
        false
    }

    /// A state with the given server name, no clients, channels or services,
    /// and all counters at 1.
    pub fn new(name: String) -> (st: FoxgloveState)
        ensures
            st.wf(),
            st@.clients.is_empty(),
            st@.channels.is_empty(),
            st@.services.is_empty(),
            st.next_client_id == 1 && st.next_channel_id == 1 && st.next_service_id == 1,
            st.server_info.op@ == "serverInfo"@,
            st.server_info.name == name,
            st.server_info.capabilities@ == seq![Capability::ClientPublish, Capability::Parameters, Capability::ParametersSubscribe, Capability::Services],
            string_views(st.server_info.supported_encodings@) == seq!["json"@, "protobuf"@, "ros1"@, "ros2"@, "cdr"@],
            st.server_info.metadata@.len() == 0,
            st.server_info.session_id is None,
    {
        let mut capabilities = Vec::new();
        capabilities.push(Capability::ClientPublish);
        capabilities.push(Capability::Parameters);
        capabilities.push(Capability::ParametersSubscribe);
        capabilities.push(Capability::Services);
        let mut supported_encodings = Vec::new();
        supported_encodings.push(String::from_str("json"));
        supported_encodings.push(String::from_str("protobuf"));
        supported_encodings.push(String::from_str("ros1"));
        supported_encodings.push(String::from_str("ros2"));
        supported_encodings.push(String::from_str("cdr"));
        let server_info = ServerInfo {
            op: String::from_str("serverInfo"),
            name,
            capabilities,
            supported_encodings,
            metadata: Vec::new(),
            session_id: None,
        };
        let st = FoxgloveState {
            server_info,
            next_client_id: 1,
            clients: HashMap::new(),
            next_channel_id: 1,
            channels: HashMap::new(),
            next_service_id: 1,
            services: HashMap::new(),
        };
        assert(st@.clients =~= Map::<u32, ClientView>::empty());
        assert(st.server_info.capabilities@ =~= seq![Capability::ClientPublish, Capability::Parameters, Capability::ParametersSubscribe, Capability::Services]);
        assert(string_views(st.server_info.supported_encodings@) =~= seq!["json"@, "protobuf"@, "ros1"@, "ros2"@, "cdr"@]);
        st
    }

    /// Takes client `cid` out of the map (to change it and put it back).
    fn take_client(&mut self, cid: ClientId) -> (c: ClientState)
        requires
            old(self)@.clients.contains_key(cid),
        ensures
            c@ == old(self)@.clients[cid],
            final(self).clients@ == old(self).clients@.remove(cid),
            final(self).server_info == old(self).server_info,
            final(self).next_client_id == old(self).next_client_id,
            final(self).next_channel_id == old(self).next_channel_id,
            final(self).next_service_id == old(self).next_service_id,
            final(self).channels@ == old(self).channels@,
            final(self).services@ == old(self).services@,
    {
        match self.clients.remove(&cid) {
            Some(c) => c,
            None => {
                assert(false);
                ClientState::new(String::new())
            },
        }
    }

    /// Puts client `cid` (back) into the map.
    fn put_client(&mut self, cid: ClientId, c: ClientState)
        ensures
            final(self)@ == old(self)@.with_client(cid, c@),
            final(self).server_info == old(self).server_info,
    {
        self.clients.insert(cid, c);
        assert(self@.clients =~= old(self)@.clients.insert(cid, c@));
        assert(self@ =~= old(self)@.with_client(cid, c@));
    }

    /// Handles a subscribe request of client `cid`: each subscription is
    /// refused with a status if its id is taken, its channel unknown, or the
    /// client already subscribed to that channel; otherwise it is recorded.
    /// Gives the statuses for the client, and the channel of each accepted
    /// subscription, in order (for the listener's `on_subscribe`).
    pub fn handle_subscribe(&mut self, cid: ClientId, subscriptions: &Vec<Subscription>) -> (r: (Vec<Status>, Vec<ChannelId>))
        requires
            old(self).wf(),
            old(self)@.clients.contains_key(cid),
        ensures
            final(self).wf(),
            final(self).server_info == old(self).server_info,
            final(self)@ == subscribe_spec(old(self)@, cid, subscriptions@).0,
            statuses_say(r.0@, subscribe_spec(old(self)@, cid, subscriptions@).1),
            r.1@ == subscribe_spec(old(self)@, cid, subscriptions@).2,
    {
        let mut statuses: Vec<Status> = Vec::new();
        let mut events: Vec<ChannelId> = Vec::new();
        let n = subscriptions.len();
        for i in 0..n
            invariant
                n == subscriptions@.len(),
                self@.wf(),
                self@.clients.contains_key(cid),
                self.server_info == old(self).server_info,
                self@ == subscribe_spec(old(self)@, cid, subscriptions@.take(i as int)).0,
                statuses_say(statuses@, subscribe_spec(old(self)@, cid, subscriptions@.take(i as int)).1),
                events@ == subscribe_spec(old(self)@, cid, subscriptions@.take(i as int)).2,
        {
            let sub = subscriptions[i];
            assert(subscriptions@.take(i + 1).drop_last() =~= subscriptions@.take(i as int));
            assert(subscriptions@.take(i + 1).last() == sub);
            let ghost before = self@;
            let client = self.clients.get(&cid).unwrap();
            if client.subscriptions.contains_key(&sub.id) {
                let text = format_with_number("Client subscription id ", sub.id as u64, " was already used; ignoring subscription");
                statuses.push(make_status(StatusLevel::Error, text));
            } else if !self.channels.contains_key(&sub.channel_id) {
                let text = format_with_number("Channel ", sub.channel_id as u64, " is not available; ignoring subscription");
                statuses.push(make_status(StatusLevel::Warning, text));
            } else if client.subscriptions_by_channel.contains_key(&sub.channel_id) {
                let text = format_with_number("Client is already subscribed to channel ", sub.channel_id as u64, "; ignoring subscription");
                statuses.push(make_status(StatusLevel::Warning, text));
            } else {
                events.push(sub.channel_id);
                let mut c = self.take_client(cid);
                c.add_subscription(sub.id, sub.channel_id);
                self.put_client(cid, c);
            }
            proof {
                let step = subscribe_step(before, cid, sub);
                assert(self@ == step.0);
            }
        }
        assert(subscriptions@.take(n as int) =~= subscriptions@);
        (statuses, events)
    }

    /// Handles an unsubscribe request of client `cid`: each id that names a
    /// subscription of the client ends it, in both directions of the
    /// subscription maps; any other id gets a warning status. Gives the
    /// statuses for the client, and the channel of each subscription that
    /// ended, in order (for the listener's `on_unsubscribe`).
    pub fn handle_unsubscribe(&mut self, cid: ClientId, subscription_ids: &Vec<u32>) -> (r: (Vec<Status>, Vec<ChannelId>))
        requires
            old(self).wf(),
            old(self)@.clients.contains_key(cid),
        ensures
            final(self).wf(),
            final(self).server_info == old(self).server_info,
            final(self)@ == unsubscribe_spec(old(self)@, cid, subscription_ids@).0,
            statuses_say(r.0@, unsubscribe_spec(old(self)@, cid, subscription_ids@).1),
            r.1@ == unsubscribe_spec(old(self)@, cid, subscription_ids@).2,
    {
        let mut statuses: Vec<Status> = Vec::new();
        let mut removed: Vec<ChannelId> = Vec::new();
        let n = subscription_ids.len();
        for i in 0..n
            invariant
                n == subscription_ids@.len(),
                self@.wf(),
                self@.clients.contains_key(cid),
                self.server_info == old(self).server_info,
                self@ == unsubscribe_removals(old(self)@, cid, subscription_ids@.take(i as int)).0,
                statuses_say(statuses@, unsubscribe_removals(old(self)@, cid, subscription_ids@.take(i as int)).1),
                removed@ == unsubscribe_removals(old(self)@, cid, subscription_ids@.take(i as int)).2,
        {
            let sub = subscription_ids[i];
            assert(subscription_ids@.take(i + 1).drop_last() =~= subscription_ids@.take(i as int));
            assert(subscription_ids@.take(i + 1).last() == sub);
            let ghost before = self@;
            let mut c = self.take_client(cid);
            match c.remove_subscription(sub) {
                None => {
                    let text = format_with_number("Client subscription id ", sub as u64, " did not exist; ignoring unsubscription");
                    statuses.push(make_status(StatusLevel::Warning, text));
                },
                Some(chan) => {
                    removed.push(chan);
                },
            }
            self.put_client(cid, c);
            proof {
                assert(self@.clients =~= before.clients.insert(cid, self@.clients[cid]));
                let step = unsubscribe_step(before, cid, sub);
                if !before.clients[cid].subscriptions.contains_key(sub) {
                    assert(self@ =~= before);
                }
                assert(self@ == step.0);
            }
        }
        assert(subscription_ids@.take(n as int) =~= subscription_ids@);
        (statuses, removed)
    }

    /// Handles a client advertisement of client `cid`: each channel whose id
    /// the client already advertised gets a warning status, the others are
    /// recorded. Gives the statuses for the client and the recorded channels
    /// (for the listener's `on_client_advertise`).
    pub fn handle_advertise(&mut self, cid: ClientId, channels: &Vec<Channel>) -> (r: (Vec<Status>, Vec<Channel>))
        requires
            old(self).wf(),
            old(self)@.clients.contains_key(cid),
        ensures
            final(self).wf(),
            final(self).server_info == old(self).server_info,
            final(self)@ == advertise_spec(old(self)@, cid, channels@).0,
            statuses_say(r.0@, advertise_spec(old(self)@, cid, channels@).1),
            r.1@ == advertise_spec(old(self)@, cid, channels@).2,
    {
        let mut statuses: Vec<Status> = Vec::new();
        let mut events: Vec<Channel> = Vec::new();
        let n = channels.len();
        for i in 0..n
            invariant
                n == channels@.len(),
                self@.wf(),
                self@.clients.contains_key(cid),
                self.server_info == old(self).server_info,
                self@ == advertise_spec(old(self)@, cid, channels@.take(i as int)).0,
                statuses_say(statuses@, advertise_spec(old(self)@, cid, channels@.take(i as int)).1),
                events@ == advertise_spec(old(self)@, cid, channels@.take(i as int)).2,
        {
            let ch = &channels[i];
            assert(channels@.take(i + 1).drop_last() =~= channels@.take(i as int));
            assert(channels@.take(i + 1).last() == *ch);
            let ghost before = self@;
            let mut c = self.take_client(cid);
            if c.advertisements_by_channel.contains_key(&ch.id) {
                let text = format_with_number("Failed to add client channel ", ch.id as u64, "");
                statuses.push(make_status(StatusLevel::Warning, text));
            } else {
                c.advertisements_by_channel.insert(ch.id, ch.duplicate());
                events.push(ch.duplicate());
            }
            self.put_client(cid, c);
            proof {
                let step = advertise_step(before, cid, *ch);
                if before.clients[cid].advertisements.contains_key(ch.id) {
                    assert(self@.clients =~= before.clients);
                    assert(self@ =~= before);
                } else {
                    assert(self@.clients[cid] =~= before.clients[cid].with_advertisement(*ch));
                }
                assert(self@ == step.0);
            }
        }
        assert(channels@.take(n as int) =~= channels@);
        (statuses, events)
    }

    /// Handles a client unadvertisement of client `cid`: each id the client
    /// did not advertise gets a warning status, the others are dropped. Gives
    /// the statuses for the client and the dropped ids (for the listener's
    /// `on_client_unadvertise`).
    pub fn handle_unadvertise(&mut self, cid: ClientId, channel_ids: &Vec<ClientChannelId>) -> (r: (Vec<Status>, Vec<ClientChannelId>))
        requires
            old(self).wf(),
            old(self)@.clients.contains_key(cid),
        ensures
            final(self).wf(),
            final(self).server_info == old(self).server_info,
            final(self)@ == unadvertise_spec(old(self)@, cid, channel_ids@).0,
            statuses_say(r.0@, unadvertise_spec(old(self)@, cid, channel_ids@).1),
            r.1@ == unadvertise_spec(old(self)@, cid, channel_ids@).2,
    {
        let mut statuses: Vec<Status> = Vec::new();
        let mut events: Vec<ClientChannelId> = Vec::new();
        let n = channel_ids.len();
        for i in 0..n
            invariant
                n == channel_ids@.len(),
                self@.wf(),
                self@.clients.contains_key(cid),
                self.server_info == old(self).server_info,
                self@ == unadvertise_spec(old(self)@, cid, channel_ids@.take(i as int)).0,
                statuses_say(statuses@, unadvertise_spec(old(self)@, cid, channel_ids@.take(i as int)).1),
                events@ == unadvertise_spec(old(self)@, cid, channel_ids@.take(i as int)).2,
        {
            let id = channel_ids[i];
            assert(channel_ids@.take(i + 1).drop_last() =~= channel_ids@.take(i as int));
            assert(channel_ids@.take(i + 1).last() == id);
            let ghost before = self@;
            let mut c = self.take_client(cid);
            if !c.advertisements_by_channel.contains_key(&id) {
                let text = format_with_number("Failed to remove client channel ", id as u64, "");
                statuses.push(make_status(StatusLevel::Warning, text));
            } else {
                c.advertisements_by_channel.remove(&id);
                events.push(id);
            }
            self.put_client(cid, c);
            proof {
                let step = unadvertise_step(before, cid, id);
                if !before.clients[cid].advertisements.contains_key(id) {
                    assert(self@.clients =~= before.clients);
                    assert(self@ =~= before);
                } else {
                    assert(self@.clients[cid] =~= before.clients[cid].without_advertisement(id));
                }
                assert(self@ == step.0);
            }
        }
        assert(channel_ids@.take(n as int) =~= channel_ids@);
        (statuses, events)
    }

    /// Handles a request of client `cid` to be told about changes of the
    /// parameters `names`. Gives the names it did not follow yet (for the
    /// listener's `on_parameters_subscribe`).
    pub fn handle_subscribe_parameter_updates(&mut self, cid: ClientId, names: &Vec<String>) -> (added: Vec<String>)
        requires
            old(self).wf(),
            old(self)@.clients.contains_key(cid),
        ensures
            final(self).wf(),
            final(self).server_info == old(self).server_info,
            final(self)@ == old(self)@.with_client(cid, param_subscribe_spec(old(self)@.clients[cid], string_views(names@)).0),
            string_views(added@) == param_subscribe_spec(old(self)@.clients[cid], string_views(names@)).1,
    {
        let mut c = self.take_client(cid);
        let added = c.subscribe_params(names);
        proof { lemma_with_client_wf(old(self)@, cid, c@); }
        let ghost cv = c@;
        self.put_client(cid, c);
        assert(self@.clients =~= old(self)@.clients.insert(cid, cv));
        assert(self@ =~= old(self)@.with_client(cid, cv));
        added
    }

    /// Handles a request of client `cid` to no longer be told about changes of
    /// the parameters `names`. Gives the names it followed until then (for the
    /// listener's `on_parameters_subscribe`).
    pub fn handle_unsubscribe_parameter_updates(&mut self, cid: ClientId, names: &Vec<String>) -> (removed: Vec<String>)
        requires
            old(self).wf(),
            old(self)@.clients.contains_key(cid),
        ensures
            final(self).wf(),
            final(self).server_info == old(self).server_info,
            final(self)@ == old(self)@.with_client(cid, param_unsubscribe_spec(old(self)@.clients[cid], string_views(names@)).0),
            string_views(removed@) == param_unsubscribe_spec(old(self)@.clients[cid], string_views(names@)).1,
    {
        let mut c = self.take_client(cid);
        let removed = c.unsubscribe_params(names);
        proof { lemma_with_client_wf(old(self)@, cid, c@); }
        let ghost cv = c@;
        self.put_client(cid, c);
        assert(self@.clients =~= old(self)@.clients.insert(cid, cv));
        assert(self@ =~= old(self)@.with_client(cid, cv));
        removed
    }

    /// The ids of all connected clients, each once.
    pub fn client_ids(&self) -> (ids: Vec<ClientId>)
        ensures
            lists_keys(ids@, self@.clients),
    {
        let mut ids: Vec<ClientId> = Vec::new();
        for k in it: self.clients.keys()
            invariant
                ids@.len() == it.index(),
                forall|i: int| 0 <= i < it.index() ==> ids@[i] == *it.seq()[i],
                forall|i: int| 0 <= i < ids.len() ==> self@.clients.contains_key(#[trigger] ids@[i]),
                ids@.no_duplicates(),
                forall|k: u32| #[trigger] self@.clients.contains_key(k) ==> exists|i: int| 0 <= i < it.seq().len() && *it.seq()[i] == k,
        {
            ids.push(*k);
        }
        ids
    }

    /// Stores `channel` under the next channel id (its own id is replaced by
    /// it) and gives that id with the advertisement to send to every client.
    pub fn add_channel(&mut self, channel: Channel) -> (r: (ChannelId, Advertise))
        requires
            old(self).wf(),
            old(self).next_channel_id < u32::MAX,
        ensures
            final(self).wf(),
            final(self).server_info == old(self).server_info,
            (final(self)@, r.0) == add_channel_spec(old(self)@, channel),
            !old(self)@.channels.contains_key(r.0),
            r.1.op@ == "advertise"@,
            r.1.channels@ == seq![channel_with_id(channel, r.0)],
            final(self)@.channels.contains_key(r.0),
            ({
                let stored = final(self)@.channels[r.0];
                &&& stored.id == r.0
                &&& stored.topic == channel.topic
                &&& stored.encoding == channel.encoding
                &&& stored.schema_name == channel.schema_name
                &&& stored.schema == channel.schema
                &&& stored.schema_encoding == channel.schema_encoding
                &&& r.1.channels@[0] == stored
            }),
    {
        let ghost orig = channel;
        let mut channel = channel;
        let new_id = self.next_channel_id;
        self.next_channel_id = self.next_channel_id + 1;
        channel.id = new_id;
        self.channels.insert(new_id, channel.duplicate());
        let mut channels = Vec::new();
        channels.push(channel);
        let msg = Advertise { op: String::from_str("advertise"), channels };
        assert(msg.channels@ =~= seq![channel_with_id(orig, new_id)]);
        (new_id, msg)
    }

    /// Drops the channel `id`; gives the unadvertisement to send to every
    /// client, or an error text where there is no such channel.
    pub fn remove_channel(&mut self, id: ChannelId) -> (r: Result<Unadvertise, String>)
        requires
            old(self).wf(),
        ensures
            final(self).wf(),
            final(self).server_info == old(self).server_info,
            match r {
                Ok(msg) => old(self)@.channels.contains_key(id)
                    && final(self)@ == remove_channel_spec(old(self)@, id)
                    && msg.op@ == "unadvertise"@
                    && msg.channel_ids@ == seq![id],
                Err(e) => !old(self)@.channels.contains_key(id)
                    && final(self)@ == old(self)@
                    && e@ == with_number("Channel with ID "@, id as nat, " does not exist."@),
            },
    {
        match self.channels.remove(&id) {
            None => Err(format_with_number("Channel with ID ", id as u64, " does not exist.")),
            Some(_) => {
                let mut channel_ids = Vec::new();
                channel_ids.push(id);
                assert(channel_ids@ =~= seq![id]);
                Ok(Unadvertise { op: String::from_str("unadvertise"), channel_ids })
            },
        }
    }

    /// Stores `service` under the next id of the channel counter (its own id
    /// is replaced by it) and gives that id with the advertisement to send to
    /// every client.
    pub fn add_service(&mut self, service: Service) -> (r: (ServiceId, AdvertiseServices))
        requires
            old(self).wf(),
            old(self).next_channel_id < u32::MAX,
        ensures
            final(self).wf(),
            final(self).server_info == old(self).server_info,
            (final(self)@, r.0) == add_service_spec(old(self)@, service),
            !old(self)@.services.contains_key(r.0),
            !old(self)@.channels.contains_key(r.0),
            r.1.op@ == "advertiseServices"@,
            r.1.services@ == seq![service_with_id(service, r.0)],
            final(self)@.services.contains_key(r.0),
            ({
                let stored = final(self)@.services[r.0];
                &&& stored.id == r.0
                &&& stored.name == service.name
                &&& stored.type_ == service.type_
                &&& stored.request == service.request
                &&& stored.response == service.response
                &&& r.1.services@[0] == stored
            }),
    {
        let ghost orig = service;
        let mut service = service;
        let new_id = self.next_channel_id;
        self.next_channel_id = self.next_channel_id + 1;
        service.id = new_id;
        self.services.insert(new_id, service.duplicate());
        let mut services = Vec::new();
        services.push(service);
        let msg = AdvertiseServices { op: String::from_str("advertiseServices"), services };
        assert(msg.services@ =~= seq![service_with_id(orig, new_id)]);
        (new_id, msg)
    }

    /// Drops the service `id`; gives the unadvertisement to send to every
    /// client, or an error text where there is no such service.
    pub fn remove_service(&mut self, id: ServiceId) -> (r: Result<UnadvertiseServices, String>)
        requires
            old(self).wf(),
        ensures
            final(self).wf(),
            final(self).server_info == old(self).server_info,
            match r {
                Ok(msg) => old(self)@.services.contains_key(id)
                    && final(self)@ == remove_service_spec(old(self)@, id)
                    && msg.op@ == "unadvertiseServices"@
                    && msg.service_ids@ == seq![id],
                Err(e) => !old(self)@.services.contains_key(id)
                    && final(self)@ == old(self)@
                    && e@ == with_number("Service with ID "@, id as nat, " does not exist."@),
            },
    {
        match self.services.remove(&id) {
            None => Err(format_with_number("Service with ID ", id as u64, " does not exist.")),
            Some(_) => {
                let mut service_ids = Vec::new();
                service_ids.push(id);
                assert(service_ids@ =~= seq![id]);
                Ok(UnadvertiseServices { op: String::from_str("unadvertiseServices"), service_ids })
            },
        }
    }

    /// Registers a client that connected from `remote` under the next client
    /// id. Gives that id, with the service and channel advertisements that the
    /// client gets right after the server info.
    pub fn connect_client(&mut self, remote: String) -> (r: (ClientId, AdvertiseServices, Advertise))
        requires
            old(self).wf(),
            old(self).next_client_id < u32::MAX,
        ensures
            final(self).wf(),
            final(self).server_info == old(self).server_info,
            r.0 == old(self).next_client_id,
            !old(self)@.clients.contains_key(r.0),
            final(self)@ == connect_spec(old(self)@, remote@),
            r.1.op@ == "advertiseServices"@,
            lists_services(r.1.services@, old(self)@.services),
            r.2.op@ == "advertise"@,
            lists_channels(r.2.channels@, old(self)@.channels),
    {
        let client_id = self.next_client_id;
        self.next_client_id = self.next_client_id + 1;
        let services = AdvertiseServices { op: String::from_str("advertiseServices"), services: list_services(&self.services) };
        let channels = Advertise { op: String::from_str("advertise"), channels: list_channels(&self.channels) };
        let c = ClientState::new(remote);
        self.clients.insert(client_id, c);
        assert(self@.clients =~= old(self)@.clients.insert(client_id, fresh_client(remote@)));
        (client_id, services, channels)
    }

    /// Drops client `cid`. Gives the channels it was subscribed to that no
    /// other client is subscribed to (for the listener's `on_unsubscribe`).
    pub fn disconnect_client(&mut self, cid: ClientId) -> (r: Vec<ChannelId>)
        requires
            old(self).wf(),
            old(self)@.clients.contains_key(cid),
        ensures
            final(self).wf(),
            final(self).server_info == old(self).server_info,
            final(self)@ == disconnect_spec(old(self)@, cid),
            r@.no_duplicates(),
            forall|ch: u32| r@.contains(ch) <==> (old(self)@.clients[cid].by_channel.contains_key(ch) && !has_subscriber(final(self)@, ch)),
    {
        let c = self.take_client(cid);
        assert(self@.clients =~= old(self)@.clients.remove(cid));
        let mut r: Vec<ChannelId> = Vec::new();
        for (k, _sub) in it: c.subscriptions_by_channel.iter()
            invariant
                self@ == (StateView { clients: old(self)@.clients.remove(cid), ..old(self)@ }),
                r@.no_duplicates(),
                forall|ch: u32| r@.contains(ch) ==> (c@.by_channel.contains_key(ch) && !has_subscriber(self@, ch)),
                forall|i: int| 0 <= i < it.index() && c@.by_channel.contains_key(*it.seq()[i].0) && !has_subscriber(self@, *it.seq()[i].0) ==> r@.contains(*it.seq()[i].0),
                forall|i: int| it.index() <= i < it.seq().len() ==> !r@.contains(*it.seq()[i].0),
                forall|ch: u32| #[trigger] c@.by_channel.contains_key(ch) ==> exists|i: int| 0 <= i < it.seq().len() && *it.seq()[i].0 == ch,
                it.seq().no_duplicates(),
        {
            let ghost idx = it.index() as int;
            assert(*it.seq()[idx].0 == *k);
            assert(c@.by_channel.contains_key(*k));
            if !self.channel_has_subscriber(*k) {
                let ghost old_r = r@;
                r.push(*k);
                assert(r@[r.len() - 1] == *k);
                assert forall|ch: u32| old_r.contains(ch) implies r@.contains(ch) by {
                    let j = choose|j: int| 0 <= j < old_r.len() && old_r[j] == ch;
                    assert(r@[j] == ch);
                }
                assert forall|ch: u32| r@.contains(ch) implies (c@.by_channel.contains_key(ch) && !has_subscriber(self@, ch)) by {
                    let j = choose|j: int| 0 <= j < r.len() && r@[j] == ch;
                    if j < old_r.len() {
                        assert(old_r[j] == ch);
                        assert(old_r.contains(ch));
                    }
                }
                assert forall|i: int| idx + 1 <= i < it.seq().len() implies !r@.contains(*it.seq()[i].0) by {
                    assert(it.seq()[i] != it.seq()[idx]);
                    assert(*it.seq()[i].0 != *k);
                    assert(!old_r.contains(*it.seq()[i].0));
                    if r@.contains(*it.seq()[i].0) {
                        let j = choose|j: int| 0 <= j < r.len() && r@[j] == *it.seq()[i].0;
                        if j < old_r.len() {
                            assert(old_r[j] == r@[j]);
                        }
                    }
                }
            }
        }
        r
    }

    /// The message-data frames to send for a message on channel `chan`: one
    /// for each client subscribed to it, carrying that client's subscription id.
    pub fn send_message(&self, chan: ChannelId, timestamp_nanos: u64, payload: &[u8]) -> (r: Vec<(ClientId, Vec<u8>)>)
        requires
            self.wf(),
        ensures
            first_of(r@).no_duplicates(),
            forall|c: u32| first_of(r@).contains(c) <==> (self@.clients.contains_key(c) && self@.clients[c].by_channel.contains_key(chan)),
            forall|i: int| 0 <= i < r@.len() ==> (#[trigger] r@[i]).1@ == message_data_frame(self@.clients[r@[i].0].by_channel[chan], timestamp_nanos, payload@),
    {
        let mut r: Vec<(ClientId, Vec<u8>)> = Vec::new();
        for (cid, client) in it: self.clients.iter()
            invariant
                first_of(r@).no_duplicates(),
                forall|c: u32| first_of(r@).contains(c) ==> (self@.clients.contains_key(c) && self@.clients[c].by_channel.contains_key(chan)),
                forall|i: int| 0 <= i < r@.len() ==> (#[trigger] r@[i]).1@ == message_data_frame(self@.clients[r@[i].0].by_channel[chan], timestamp_nanos, payload@),
                forall|i: int| 0 <= i < it.index() && self@.clients[*it.seq()[i].0].by_channel.contains_key(chan) ==> first_of(r@).contains(*it.seq()[i].0),
                forall|i: int| it.index() <= i < it.seq().len() ==> !first_of(r@).contains(*it.seq()[i].0),
                forall|c: u32| #[trigger] self@.clients.contains_key(c) ==> exists|i: int| 0 <= i < it.seq().len() && *it.seq()[i].0 == c,
                it.seq().no_duplicates(),
                forall|i: int| 0 <= i < it.seq().len() ==> self.clients@.contains_key(*it.seq()[i].0) && self.clients@[*it.seq()[i].0] == *it.seq()[i].1,
        {
            let ghost idx = it.index() as int;
            proof { lemma_entry_keys_distinct(it.seq(), self.clients@); }
            assert(*it.seq()[idx].0 == *cid && *it.seq()[idx].1 == *client);
            assert(self.clients@.contains_key(*cid) && self.clients@[*cid] == *client);
            assert(self@.clients[*cid] == client@);
            match client.subscriptions_by_channel.get(&chan) {
                Some(sub) => {
                    assert(self@.clients[*cid].by_channel.contains_key(chan));
                    let frame = encode_message_data(*sub, timestamp_nanos, payload);
                    let ghost old_r = r@;
                    r.push((*cid, frame));
                    proof {
                        lemma_first_of_push(old_r, (*cid, frame), it.seq(), idx);
                        assert(r@ == old_r.push((*cid, frame)));
                        assert forall|c: u32| first_of(r@).contains(c) implies (self@.clients.contains_key(c) && self@.clients[c].by_channel.contains_key(chan)) by {
                            if c != *cid {
                                assert(first_of(old_r).contains(c));
                            }
                        }
                    }
                },
                None => {},
            }
        }
        r
    }

    /// The parameter values to send after parameters changed: for each client
    /// that follows some of `parameters`, those parameters (in their order).
    pub fn update_parameters(&self, parameters: &Vec<Parameter>) -> (r: Vec<(ClientId, ParameterValues)>)
        requires
            self.wf(),
        ensures
            first_of(r@).no_duplicates(),
            forall|c: u32| first_of(r@).contains(c) <==> (self@.clients.contains_key(c) && params_for(self@.clients[c], parameters@).len() > 0),
            forall|i: int| 0 <= i < r@.len() ==> {
                &&& (#[trigger] r@[i]).1.op@ == "parameterValues"@
                &&& r@[i].1.id is None
                &&& r@[i].1.parameters@ == params_for(self@.clients[r@[i].0], parameters@)
            },
    {
        let mut r: Vec<(ClientId, ParameterValues)> = Vec::new();
        for (cid, client) in it: self.clients.iter()
            invariant
                first_of(r@).no_duplicates(),
                forall|c: u32| first_of(r@).contains(c) ==> (self@.clients.contains_key(c) && params_for(self@.clients[c], parameters@).len() > 0),
                forall|i: int| 0 <= i < r@.len() ==> {
                    &&& (#[trigger] r@[i]).1.op@ == "parameterValues"@
                    &&& r@[i].1.id is None
                    &&& r@[i].1.parameters@ == params_for(self@.clients[r@[i].0], parameters@)
                },
                forall|i: int| 0 <= i < it.index() && params_for(self@.clients[*it.seq()[i].0], parameters@).len() > 0 ==> first_of(r@).contains(*it.seq()[i].0),
                forall|i: int| it.index() <= i < it.seq().len() ==> !first_of(r@).contains(*it.seq()[i].0),
                forall|c: u32| #[trigger] self@.clients.contains_key(c) ==> exists|i: int| 0 <= i < it.seq().len() && *it.seq()[i].0 == c,
                it.seq().no_duplicates(),
                forall|i: int| 0 <= i < it.seq().len() ==> self.clients@.contains_key(*it.seq()[i].0) && self.clients@[*it.seq()[i].0] == *it.seq()[i].1,
        {
            let ghost idx = it.index() as int;
            proof { lemma_entry_keys_distinct(it.seq(), self.clients@); }
            assert(*it.seq()[idx].0 == *cid && *it.seq()[idx].1 == *client);
            assert(self.clients@.contains_key(*cid) && self.clients@[*cid] == *client);
            assert(self@.clients[*cid] == client@);
            let to_send = params_followed(client, parameters);
            if to_send.len() > 0 {
                let msg = ParameterValues { op: String::from_str("parameterValues"), parameters: to_send, id: None };
                let ghost old_r = r@;
                r.push((*cid, msg));
                proof {
                    lemma_first_of_push(old_r, (*cid, msg), it.seq(), idx);
                    assert(r@ == old_r.push((*cid, msg)));
                    assert forall|c: u32| first_of(r@).contains(c) implies (self@.clients.contains_key(c) && params_for(self@.clients[c], parameters@).len() > 0) by {
                        if c != *cid {
                            assert(first_of(old_r).contains(c));
                        }
                    }
                }
            }
        }
        r
    }

    /// Replaces the session id of the server info; gives the clients that
    /// must be sent the new server info (all of them).
    pub fn reset_session_id(&mut self, new_session_id: Option<String>) -> (ids: Vec<ClientId>)
        requires
            old(self).wf(),
        ensures
            final(self).wf(),
            final(self)@ == old(self)@,
            final(self).server_info.session_id == new_session_id,
            final(self).server_info.op == old(self).server_info.op,
            final(self).server_info.name == old(self).server_info.name,
            final(self).server_info.capabilities == old(self).server_info.capabilities,
            final(self).server_info.supported_encodings == old(self).server_info.supported_encodings,
            final(self).server_info.metadata == old(self).server_info.metadata,
            lists_keys(ids@, old(self)@.clients),
    {
        self.server_info.session_id = new_session_id;
        self.client_ids()
    }

    /// Reads the binary frame `msg` of client `cid` and decides what to do
    /// with it (see `binary_input_spec`).
    pub fn handle_binary_input(&self, cid: ClientId, msg: &[u8]) -> (r: BinaryInput)
        requires
            self.wf(),
            self@.clients.contains_key(cid),
        ensures
            binary_input_matches(r, binary_input_spec(self@, cid, msg@)),
            match r {
                BinaryInput::ServiceCall { encoding, .. } => decode_client_frame(msg@) matches Ok(
                    ClientFrameSpec::ServiceCallRequest { encoding: bytes, .. },
                ) ==> (bytes.len() > 0 && valid_utf8(bytes) ==> encoding@ == decode_utf8(bytes)),
                _ => true,
            },
            decode_client_frame(msg@) matches Ok(ClientFrameSpec::MessageData { channel_id, payload })
                ==> (self@.clients[cid].advertisements.contains_key(channel_id) <==> (r matches BinaryInput::ClientMessage {
                    channel_id: c2,
                    payload: p2,
                } && c2 == channel_id && p2@ == payload)),
    {
        match read_client_frame(msg) {
            Err(e) => BinaryInput::Refused(make_status(StatusLevel::Error, frame_error_message(e))),
            Ok(ClientFrame::MessageData { channel_id, payload }) => {
                let client = self.clients.get(&cid).unwrap();
                if client.advertisements_by_channel.contains_key(&channel_id) {
                    BinaryInput::ClientMessage { channel_id, payload }
                } else {
                    let mut text = format_with_number("Channel ", channel_id as u64, " not registered by client ");
                    text.append(client.remote.as_str());
                    BinaryInput::Refused(make_status(StatusLevel::Error, text))
                }
            },
            Ok(ClientFrame::ServiceCallRequest { service_id, call_id, encoding, payload }) => {
                let encoding = if encoding.len() == 0 {
                    String::from_str("json")
                } else {
                    string_from_utf8_lossy(encoding.as_slice())
                };
                if self.services.contains_key(&service_id) {
                    let response_prefix = encode_service_call_response_prefix(service_id, call_id, encoding.as_str().as_bytes());
                    BinaryInput::ServiceCall { service_id, call_id, encoding, payload, response_prefix }
                } else {
                    BinaryInput::Refused(make_status(StatusLevel::Error, format_with_number("Unknown service ", service_id as u64, "")))
                }
            },
        }
    }
}

/// The text of the status that refuses an unreadable frame.
fn frame_error_message(e: FrameError) -> (text: String)
    ensures
        text@ == frame_error_text(e),
{
    match e {
        FrameError::TooShort { len } => format_with_number("Received invalid binary message of size ", len as u64, ""),
        FrameError::ServiceCallTooShort { len } => format_with_number("Not enough bytes in message: expect 13 got: ", len as u64, ""),
        FrameError::EncodingTruncated { expected, len } => {
            let mut text = format_with_number("Not enough bytes in message: expect ", expected, " got: ");
            let n = decimal_string(len as u64);
            text.append(n.as_str());
            text
        },
        FrameError::UnknownOpcode { opcode } => format_with_number("Received binary message with invalid operation ", opcode as u64, ""),
    }
}

/// The reply to a parameter request: the given parameters, under the request id.
pub fn parameter_values_reply(parameters: Vec<Parameter>, id: Option<u32>) -> (r: ParameterValues)
    ensures
        r.op@ == "parameterValues"@,
        r.parameters == parameters,
        r.id == id,
{
    ParameterValues { op: String::from_str("parameterValues"), parameters, id }
}

/// The parameters of `ps` that `client` follows, in their order.
fn params_followed(client: &ClientState, ps: &Vec<Parameter>) -> (r: Vec<Parameter>)
    ensures
        r@ == params_for(client@, ps@),
{
    let mut r: Vec<Parameter> = Vec::new();
    let n = ps.len();
    for i in 0..n
        invariant
            n == ps@.len(),
            r@ == ps@.take(i as int).filter(|p: Parameter| has_param(client@.params, p.name@)),
    {
        reveal_with_fuel(Seq::<_>::filter, 1);
        assert(ps@.take(i + 1).drop_last() =~= ps@.take(i as int));
        assert(ps@.take(i + 1).last() == ps@[i as int]);
        if client.follows_param(&ps[i].name) {
            r.push(ps[i].duplicate());
        }
    }
    assert(ps@.take(n as int) =~= ps@);
    r
}

/// The first components of a sequence of pairs.
pub open spec fn first_of<T>(r: Seq<(u32, T)>) -> Seq<u32> {
    r.map_values(|p: (u32, T)| p.0)
}

/// Pushing a pair whose key stands at position `idx` of a duplicate-free
/// sequence, and in no later position, keeps the bookkeeping of a loop over it.
proof fn lemma_first_of_push<T, V>(old_r: Seq<(u32, T)>, x: (u32, T), sq: Seq<(&u32, &V)>, idx: int)
    requires
        first_of(old_r).no_duplicates(),
        0 <= idx < sq.len(),
        *sq[idx].0 == x.0,
        sq.no_duplicates(),
        forall|i: int| idx <= i < sq.len() ==> !first_of(old_r).contains(*sq[i].0),
        forall|i: int| 0 <= i < sq.len() && i != idx ==> *sq[i].0 != x.0,
    ensures
        first_of(old_r.push(x)) == first_of(old_r).push(x.0),
        first_of(old_r.push(x)).no_duplicates(),
        forall|c: u32| first_of(old_r.push(x)).contains(c) <==> (first_of(old_r).contains(c) || c == x.0),
        forall|i: int| idx + 1 <= i < sq.len() ==> !first_of(old_r.push(x)).contains(*sq[i].0),
{
    let f = first_of(old_r);
    assert(first_of(old_r.push(x)) =~= f.push(x.0));
    assert(!f.contains(x.0));
    assert forall|c: u32| f.push(x.0).contains(c) <==> (f.contains(c) || c == x.0) by {
        if f.push(x.0).contains(c) {
            let j = choose|j: int| 0 <= j < f.len() + 1 && f.push(x.0)[j] == c;
            if j < f.len() {
                assert(f[j] == c);
            }
        }
        if f.contains(c) {
            let j = choose|j: int| 0 <= j < f.len() && f[j] == c;
            assert(f.push(x.0)[j] == c);
        }
        if c == x.0 {
            assert(f.push(x.0)[f.len() as int] == c);
        }
    }
    assert forall|i: int| idx + 1 <= i < sq.len() implies !f.push(x.0).contains(*sq[i].0) by {
        assert(!f.contains(*sq[i].0));
        assert(*sq[i].0 != x.0);
    }
}

/// In a duplicate-free listing of the entries of a map, no key occurs twice.
proof fn lemma_entry_keys_distinct<V>(sq: Seq<(&u32, &V)>, m: Map<u32, V>)
    requires
        sq.no_duplicates(),
        forall|i: int| 0 <= i < sq.len() ==> m.contains_key(*sq[i].0) && m[*sq[i].0] == *sq[i].1,
    ensures
        forall|i: int, j: int| 0 <= i < sq.len() && 0 <= j < sq.len() && *sq[i].0 == *sq[j].0 ==> i == j,
{
    assert forall|i: int, j: int| 0 <= i < sq.len() && 0 <= j < sq.len() && *sq[i].0 == *sq[j].0 implies i == j by {
        assert(*sq[i].1 == m[*sq[i].0]);
        assert(*sq[j].1 == m[*sq[j].0]);
        assert(sq[i] == sq[j]);
    }
}

/// Copies of the channels of `m`, each once.
fn list_channels(m: &HashMap<ChannelId, Channel>) -> (v: Vec<Channel>)
    requires
        forall|k: u32| #[trigger] m@.contains_key(k) ==> m@[k].id == k,
    ensures
        lists_channels(v@, m@),
{
    let mut v: Vec<Channel> = Vec::new();
    for (k, ch) in it: m.iter()
        invariant
            forall|k: u32| #[trigger] m@.contains_key(k) ==> m@[k].id == k,
            v@.len() == it.index(),
            forall|i: int| 0 <= i < it.index() ==> v@[i] == *it.seq()[i].1 && v@[i].id == *it.seq()[i].0,
            forall|i: int| 0 <= i < v.len() ==> m@.contains_key(#[trigger] v@[i].id) && m@[v@[i].id] == v@[i],
            forall|i: int, j: int| 0 <= i < j < v.len() ==> v@[i].id != v@[j].id,
            it.seq().no_duplicates(),
            forall|k: u32| #[trigger] m@.contains_key(k) ==> (exists|i: int| 0 <= i < v.len() && v@[i].id == k) || (exists|i: int| it.index() <= i < it.seq().len() && *it.seq()[i].0 == k),
    {
        assert(*it.seq()[it.index() as int].0 == *k && *it.seq()[it.index() as int].1 == *ch);
        assert(m@.contains_key(*k) && m@[*k] == *ch);
        assert forall|j: int| 0 <= j < v.len() implies v@[j].id != *k by {
            if v@[j].id == *k {
                assert(it.seq()[j] == it.seq()[it.index() as int]);
            }
        }
        let ghost idx = it.index() as int;
        let ghost old_v = v@;
        v.push(ch.duplicate());
        assert forall|kk: u32| #[trigger] m@.contains_key(kk) && !(exists|i: int| 0 <= i < old_v.len() && old_v[i].id == kk)
            && !(exists|i: int| idx + 1 <= i < it.seq().len() && *it.seq()[i].0 == kk) implies exists|i: int| 0 <= i < v.len() && v@[i].id == kk by {
            assert(v@[idx].id == *k);
            assert(*it.seq()[idx].0 == kk);
        }
        assert forall|i: int| 0 <= i < old_v.len() implies v@[i] == old_v[i] by {}
    }
    v
}

/// Copies of the services of `m`, each once.
fn list_services(m: &HashMap<ServiceId, Service>) -> (v: Vec<Service>)
    requires
        forall|k: u32| #[trigger] m@.contains_key(k) ==> m@[k].id == k,
    ensures
        lists_services(v@, m@),
{
    let mut v: Vec<Service> = Vec::new();
    for (k, sv) in it: m.iter()
        invariant
            forall|k: u32| #[trigger] m@.contains_key(k) ==> m@[k].id == k,
            v@.len() == it.index(),
            forall|i: int| 0 <= i < it.index() ==> v@[i] == *it.seq()[i].1 && v@[i].id == *it.seq()[i].0,
            forall|i: int| 0 <= i < v.len() ==> m@.contains_key(#[trigger] v@[i].id) && m@[v@[i].id] == v@[i],
            forall|i: int, j: int| 0 <= i < j < v.len() ==> v@[i].id != v@[j].id,
            it.seq().no_duplicates(),
            forall|k: u32| #[trigger] m@.contains_key(k) ==> (exists|i: int| 0 <= i < v.len() && v@[i].id == k) || (exists|i: int| it.index() <= i < it.seq().len() && *it.seq()[i].0 == k),
    {
        assert(*it.seq()[it.index() as int].0 == *k && *it.seq()[it.index() as int].1 == *sv);
        assert(m@.contains_key(*k) && m@[*k] == *sv);
        assert forall|j: int| 0 <= j < v.len() implies v@[j].id != *k by {
            if v@[j].id == *k {
                assert(it.seq()[j] == it.seq()[it.index() as int]);
            }
        }
        let ghost idx = it.index() as int;
        let ghost old_v = v@;
        v.push(sv.duplicate());
        assert forall|kk: u32| #[trigger] m@.contains_key(kk) && !(exists|i: int| 0 <= i < old_v.len() && old_v[i].id == kk)
            && !(exists|i: int| idx + 1 <= i < it.seq().len() && *it.seq()[i].0 == kk) implies exists|i: int| 0 <= i < v.len() && v@[i].id == kk by {
            assert(v@[idx].id == *k);
            assert(*it.seq()[idx].0 == kk);
        }
        assert forall|i: int| 0 <= i < old_v.len() implies v@[i] == old_v[i] by {}
    }
    v
}

} // verus!
