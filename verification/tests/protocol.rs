use foxglove_websocket_rs::binary::{
    encode_message_data, encode_service_call_response_prefix, push_u32_le, push_u64_le,
    read_client_frame, read_u32_le, ClientFrame, FrameError,
};
use foxglove_websocket_rs::foxglove_state::{no_implementation_status, parameter_values_reply, BinaryInput};
use foxglove_websocket_rs::messages::{make_status, Capability, StatusLevel, Subscription};
use foxglove_websocket_rs::text::{decimal_string, format_with_number};
use foxglove_websocket_rs::text_input::{text_input_kind, TextInput, TextOp};
use foxglove_websocket_rs::{Channel, FoxgloveState, Parameter, Service, Status};

fn channel(id: u32, topic: &str) -> Channel {
    Channel {
        id,
        topic: topic.to_string(),
        encoding: "json".to_string(),
        schema_name: "s".to_string(),
        schema: "{}".to_string(),
        schema_encoding: None,
    }
}

fn service(name: &str) -> Service {
    Service { id: 0, name: name.to_string(), type_: "t".to_string(), request: None, response: None }
}

fn param(name: &str, value: &str) -> Parameter {
    Parameter { name: name.to_string(), value: value.to_string(), type_: None, id: None }
}

fn texts(v: &[Status]) -> Vec<(u8, String)> {
    v.iter().map(|s| (s.level, s.message.clone())).collect()
}

fn sub(id: u32, channel_id: u32) -> Subscription {
    Subscription { id, channel_id }
}

#[test]
fn it_works() {
    assert_eq!(2 + 2, 4);
}

#[test]
fn decimal_numbers() {
    assert_eq!(decimal_string(0), "0");
    assert_eq!(decimal_string(7), "7");
    assert_eq!(decimal_string(10), "10");
    assert_eq!(decimal_string(4294967295), "4294967295");
    assert_eq!(decimal_string(u64::MAX), "18446744073709551615");
    assert_eq!(format_with_number("a ", 42, " b"), "a 42 b");
}

#[test]
fn little_endian_integers() {
    let mut out = vec![9u8];
    push_u32_le(&mut out, 0x0403_0201);
    assert_eq!(out, vec![9, 1, 2, 3, 4]);
    assert_eq!(read_u32_le(&out, 1), 0x0403_0201);
    let mut out = Vec::new();
    push_u64_le(&mut out, 0x0807_0605_0403_0201);
    assert_eq!(out, vec![1, 2, 3, 4, 5, 6, 7, 8]);
    let mut out = Vec::new();
    push_u64_le(&mut out, u64::MAX);
    assert_eq!(out, vec![255; 8]);
}

#[test]
fn client_message_data_frame() {
    let frame = vec![1u8, 7, 0, 0, 0, 0xaa, 0xbb];
    match read_client_frame(&frame) {
        Ok(ClientFrame::MessageData { channel_id, payload }) => {
            assert_eq!(channel_id, 7);
            assert_eq!(payload, vec![0xaa, 0xbb]);
        }
        other => panic!("unexpected {:?}", other),
    }
    match read_client_frame(&[1u8, 1, 1, 0, 0]) {
        Ok(ClientFrame::MessageData { channel_id, payload }) => {
            assert_eq!(channel_id, 257);
            assert!(payload.is_empty());
        }
        other => panic!("unexpected {:?}", other),
    }
}

#[test]
fn client_service_call_frame() {
    let mut frame = vec![2u8, 5, 0, 0, 0, 9, 0, 0, 0, 4, 0, 0, 0];
    frame.extend_from_slice(b"cdr!");
    frame.extend_from_slice(&[1, 2, 3]);
    match read_client_frame(&frame) {
        Ok(ClientFrame::ServiceCallRequest { service_id, call_id, encoding, payload }) => {
            assert_eq!(service_id, 5);
            assert_eq!(call_id, 9);
            assert_eq!(encoding, b"cdr!".to_vec());
            assert_eq!(payload, vec![1, 2, 3]);
        }
        other => panic!("unexpected {:?}", other),
    }
}

#[test]
fn client_frame_errors() {
    assert_eq!(read_client_frame(&[1, 2, 3]).unwrap_err(), FrameError::TooShort { len: 3 });
    assert_eq!(read_client_frame(&[]).unwrap_err(), FrameError::TooShort { len: 0 });
    assert_eq!(read_client_frame(&[9, 0, 0, 0, 0]).unwrap_err(), FrameError::UnknownOpcode { opcode: 9 });
    assert_eq!(
        read_client_frame(&[2, 0, 0, 0, 0, 0]).unwrap_err(),
        FrameError::ServiceCallTooShort { len: 6 }
    );
    let frame = vec![2u8, 1, 0, 0, 0, 1, 0, 0, 0, 5, 0, 0, 0, b'j'];
    assert_eq!(
        read_client_frame(&frame).unwrap_err(),
        FrameError::EncodingTruncated { expected: 18, len: 14 }
    );
}

#[test]
fn server_message_data_frame() {
    let frame = encode_message_data(0x01020304, 0x1122334455667788, &[0xde, 0xad]);
    assert_eq!(
        frame,
        vec![1, 4, 3, 2, 1, 0x88, 0x77, 0x66, 0x55, 0x44, 0x33, 0x22, 0x11, 0xde, 0xad]
    );
}

#[test]
fn server_service_call_response_prefix() {
    let prefix = encode_service_call_response_prefix(5, 9, b"json");
    assert_eq!(prefix, vec![3, 5, 0, 0, 0, 9, 0, 0, 0, 4, 0, 0, 0, b'j', b's', b'o', b'n']);
}

#[test]
fn status_messages() {
    let s = make_status(StatusLevel::Warning, "careful".to_string());
    assert_eq!(s.op, "status");
    assert_eq!(s.level, 1);
    assert_eq!(s.message, "careful");
    assert!(s.id.is_none());
    assert_eq!(make_status(StatusLevel::Info, String::new()).level, 0);
    assert_eq!(make_status(StatusLevel::Error, String::new()).level, 2);
    let s = no_implementation_status(12);
    assert_eq!((s.level, s.message.as_str()), (2, "No implementation of 12"));
}

#[test]
fn new_state_server_info() {
    let st = FoxgloveState::new("hello".to_string());
    assert_eq!(st.server_info.op, "serverInfo");
    assert_eq!(st.server_info.name, "hello");
    assert_eq!(
        st.server_info.capabilities,
        vec![
            Capability::ClientPublish,
            Capability::Parameters,
            Capability::ParametersSubscribe,
            Capability::Services
        ]
    );
    assert_eq!(st.server_info.supported_encodings, vec!["json", "protobuf", "ros1", "ros2", "cdr"]);
    assert!(st.server_info.metadata.is_empty());
    assert!(st.server_info.session_id.is_none());
    assert_eq!((st.next_client_id, st.next_channel_id, st.next_service_id), (1, 1, 1));
    assert!(st.clients.is_empty() && st.channels.is_empty() && st.services.is_empty());
}

#[test]
fn channels_and_services_share_the_id_counter() {
    let mut st = FoxgloveState::new("s".to_string());
    let (id1, adv) = st.add_channel(channel(99, "/a"));
    assert_eq!(id1, 1);
    assert_eq!(adv.op, "advertise");
    assert_eq!(adv.channels.len(), 1);
    assert_eq!(adv.channels[0].id, 1);
    assert_eq!(adv.channels[0].topic, "/a");
    let (sid, advs) = st.add_service(service("svc"));
    assert_eq!(sid, 2);
    assert_eq!(advs.op, "advertiseServices");
    assert_eq!(advs.services[0].id, 2);
    let (id3, _) = st.add_channel(channel(0, "/b"));
    assert_eq!(id3, 3);
    assert_eq!(st.channels.len(), 2);
    assert_eq!(st.services.len(), 1);
}

#[test]
fn remove_channel_and_service() {
    let mut st = FoxgloveState::new("s".to_string());
    let (id, _) = st.add_channel(channel(0, "/a"));
    let un = st.remove_channel(id).unwrap();
    assert_eq!(un.op, "unadvertise");
    assert_eq!(un.channel_ids, vec![id]);
    assert!(st.channels.is_empty());
    assert_eq!(st.remove_channel(id).unwrap_err(), "Channel with ID 1 does not exist.");
    let (sid, _) = st.add_service(service("x"));
    let un = st.remove_service(sid).unwrap();
    assert_eq!(un.op, "unadvertiseServices");
    assert_eq!(un.service_ids, vec![sid]);
    assert_eq!(st.remove_service(7).unwrap_err(), "Service with ID 7 does not exist.");
}

#[test]
fn connect_lists_channels_and_services() {
    let mut st = FoxgloveState::new("s".to_string());
    st.add_channel(channel(0, "/a"));
    st.add_channel(channel(0, "/b"));
    st.add_service(service("x"));
    let (cid, services, channels) = st.connect_client("1.2.3.4:5".to_string());
    assert_eq!(cid, 1);
    assert_eq!(services.op, "advertiseServices");
    assert_eq!(services.services.len(), 1);
    assert_eq!(services.services[0].name, "x");
    assert_eq!(channels.op, "advertise");
    let mut topics: Vec<String> = channels.channels.iter().map(|c| c.topic.clone()).collect();
    topics.sort();
    assert_eq!(topics, vec!["/a", "/b"]);
    let (cid2, _, _) = st.connect_client("other".to_string());
    assert_eq!(cid2, 2);
    assert_eq!(st.next_client_id, 3);
    assert_eq!(st.clients[&1].remote, "1.2.3.4:5");
}

#[test]
fn subscribe_announces_every_accepted_subscription() {
    let mut st = FoxgloveState::new("s".to_string());
    let (ch, _) = st.add_channel(channel(0, "/a"));
    let (a, _, _) = st.connect_client("a".to_string());
    let (b, _, _) = st.connect_client("b".to_string());
    let (statuses, events) = st.handle_subscribe(a, &vec![sub(10, ch)]);
    assert!(statuses.is_empty());
    assert_eq!(events, vec![ch]);
    let (statuses, events) = st.handle_subscribe(b, &vec![sub(20, ch)]);
    assert!(statuses.is_empty());
    assert_eq!(events, vec![ch]);
    assert_eq!(st.clients[&a].subscriptions[&10], ch);
    assert_eq!(st.clients[&a].subscriptions_by_channel[&ch], 10);
}

#[test]
fn subscribe_refusals() {
    let mut st = FoxgloveState::new("s".to_string());
    let (ch, _) = st.add_channel(channel(0, "/a"));
    let (a, _, _) = st.connect_client("a".to_string());
    let (statuses, events) = st.handle_subscribe(a, &vec![sub(1, ch), sub(1, ch), sub(2, 42), sub(3, ch)]);
    assert_eq!(events, vec![ch]);
    assert_eq!(
        texts(&statuses),
        vec![
            (2, "Client subscription id 1 was already used; ignoring subscription".to_string()),
            (1, "Channel 42 is not available; ignoring subscription".to_string()),
            (1, "Client is already subscribed to channel 1; ignoring subscription".to_string()),
        ]
    );
    assert!(statuses.iter().all(|s| s.op == "status" && s.id.is_none()));
    assert_eq!(st.clients[&a].subscriptions.len(), 1);
}

#[test]
fn unsubscribe_announces_every_ended_subscription() {
    let mut st = FoxgloveState::new("s".to_string());
    let (ch, _) = st.add_channel(channel(0, "/a"));
    let (a, _, _) = st.connect_client("a".to_string());
    let (b, _, _) = st.connect_client("b".to_string());
    st.handle_subscribe(a, &vec![sub(1, ch)]);
    st.handle_subscribe(b, &vec![sub(2, ch)]);
    let (statuses, events) = st.handle_unsubscribe(a, &vec![1, 5]);
    assert_eq!(
        texts(&statuses),
        vec![(1, "Client subscription id 5 did not exist; ignoring unsubscription".to_string())]
    );
    assert_eq!(events, vec![ch]);
    let (statuses, events) = st.handle_unsubscribe(b, &vec![2]);
    assert!(statuses.is_empty());
    assert_eq!(events, vec![ch]);
    assert!(st.clients[&b].subscriptions.is_empty());
    assert!(st.clients[&b].subscriptions_by_channel.is_empty());
}

#[test]
fn unsubscribe_then_subscribe_again() {
    let mut st = FoxgloveState::new("s".to_string());
    let (ch, _) = st.add_channel(channel(0, "/a"));
    let (a, _, _) = st.connect_client("a".to_string());
    st.handle_subscribe(a, &vec![sub(1, ch)]);
    let (_, events) = st.handle_unsubscribe(a, &vec![1]);
    assert_eq!(events, vec![ch]);
    assert!(st.clients[&a].subscriptions.is_empty());
    let (statuses, events) = st.handle_subscribe(a, &vec![sub(1, ch)]);
    assert!(statuses.is_empty());
    assert_eq!(events, vec![ch]);
}

#[test]
fn client_advertise_and_unadvertise() {
    let mut st = FoxgloveState::new("s".to_string());
    let (a, _, _) = st.connect_client("a".to_string());
    let (statuses, events) = st.handle_advertise(a, &vec![channel(4, "/x"), channel(4, "/y")]);
    assert_eq!(texts(&statuses), vec![(1, "Failed to add client channel 4".to_string())]);
    assert_eq!(events.len(), 1);
    assert_eq!(events[0].topic, "/x");
    assert_eq!(st.clients[&a].advertisements_by_channel[&4].topic, "/x");
    let (statuses, events) = st.handle_unadvertise(a, &vec![4, 4]);
    assert_eq!(texts(&statuses), vec![(1, "Failed to remove client channel 4".to_string())]);
    assert_eq!(events, vec![4]);
    assert!(st.clients[&a].advertisements_by_channel.is_empty());
}

#[test]
fn parameter_subscriptions() {
    let mut st = FoxgloveState::new("s".to_string());
    let (a, _, _) = st.connect_client("a".to_string());
    let names = vec!["p".to_string(), "q".to_string(), "p".to_string()];
    let added = st.handle_subscribe_parameter_updates(a, &names);
    assert_eq!(added, vec!["p", "q"]);
    let added = st.handle_subscribe_parameter_updates(a, &vec!["q".to_string(), "r".to_string()]);
    assert_eq!(added, vec!["r"]);
    assert_eq!(st.clients[&a].subscribed_params, vec!["p", "q", "r"]);
    let removed = st.handle_unsubscribe_parameter_updates(a, &vec!["q".to_string(), "z".to_string(), "q".to_string()]);
    assert_eq!(removed, vec!["q"]);
    assert_eq!(st.clients[&a].subscribed_params, vec!["p", "r"]);
}

#[test]
fn update_parameters_goes_to_followers() {
    let mut st = FoxgloveState::new("s".to_string());
    let (a, _, _) = st.connect_client("a".to_string());
    let (b, _, _) = st.connect_client("b".to_string());
    st.handle_subscribe_parameter_updates(a, &vec!["p".to_string(), "q".to_string()]);
    st.handle_subscribe_parameter_updates(b, &vec!["z".to_string()]);
    let out = st.update_parameters(&vec![param("q", "1"), param("x", "2"), param("p", "3")]);
    assert_eq!(out.len(), 1);
    assert_eq!(out[0].0, a);
    assert_eq!(out[0].1.op, "parameterValues");
    assert!(out[0].1.id.is_none());
    let names: Vec<&str> = out[0].1.parameters.iter().map(|p| p.name.as_str()).collect();
    assert_eq!(names, vec!["q", "p"]);
    assert_eq!(out[0].1.parameters[1].value, "3");
    let reply = parameter_values_reply(vec![param("p", "true")], Some(7));
    assert_eq!(reply.op, "parameterValues");
    assert_eq!(reply.id, Some(7));
    assert_eq!(reply.parameters.len(), 1);
}

#[test]
fn send_message_frames_per_subscription() {
    let mut st = FoxgloveState::new("s".to_string());
    let (ch, _) = st.add_channel(channel(0, "/a"));
    let (ch2, _) = st.add_channel(channel(0, "/b"));
    let (a, _, _) = st.connect_client("a".to_string());
    let (b, _, _) = st.connect_client("b".to_string());
    let (c, _, _) = st.connect_client("c".to_string());
    st.handle_subscribe(a, &vec![sub(7, ch)]);
    st.handle_subscribe(b, &vec![sub(8, ch)]);
    st.handle_subscribe(c, &vec![sub(9, ch2)]);
    let mut out = st.send_message(ch, 5, &[0xff]);
    out.sort();
    assert_eq!(
        out,
        vec![
            (a, vec![1, 7, 0, 0, 0, 5, 0, 0, 0, 0, 0, 0, 0, 0xff]),
            (b, vec![1, 8, 0, 0, 0, 5, 0, 0, 0, 0, 0, 0, 0, 0xff]),
        ]
    );
    assert!(st.send_message(77, 5, &[]).is_empty());
}

#[test]
fn reset_session_id_reaches_all_clients() {
    let mut st = FoxgloveState::new("s".to_string());
    st.connect_client("a".to_string());
    st.connect_client("b".to_string());
    let mut ids = st.reset_session_id(Some("abc".to_string()));
    ids.sort();
    assert_eq!(ids, vec![1, 2]);
    assert_eq!(st.server_info.session_id, Some("abc".to_string()));
    assert_eq!(st.server_info.name, "s");
}

#[test]
fn disconnect_announces_channels_left_alone() {
    let mut st = FoxgloveState::new("s".to_string());
    let (ch1, _) = st.add_channel(channel(0, "/a"));
    let (ch2, _) = st.add_channel(channel(0, "/b"));
    let (a, _, _) = st.connect_client("a".to_string());
    let (b, _, _) = st.connect_client("b".to_string());
    st.handle_subscribe(a, &vec![sub(1, ch1), sub(2, ch2)]);
    st.handle_subscribe(b, &vec![sub(1, ch1)]);
    let gone = st.disconnect_client(a);
    assert_eq!(gone, vec![ch2]);
    assert!(!st.clients.contains_key(&a));
    let gone = st.disconnect_client(b);
    assert_eq!(gone, vec![ch1]);
    assert!(st.clients.is_empty());
}

#[test]
fn binary_input_client_message() {
    let mut st = FoxgloveState::new("s".to_string());
    let (a, _, _) = st.connect_client("10.0.0.1:80".to_string());
    st.handle_advertise(a, &vec![channel(3, "/in")]);
    match st.handle_binary_input(a, &[1, 3, 0, 0, 0, 42]) {
        BinaryInput::ClientMessage { channel_id, payload } => {
            assert_eq!(channel_id, 3);
            assert_eq!(payload, vec![42]);
        }
        _ => panic!("expected a client message"),
    }
    match st.handle_binary_input(a, &[1, 4, 0, 0, 0, 42]) {
        BinaryInput::Refused(s) => {
            assert_eq!(s.level, 2);
            assert_eq!(s.message, "Channel 4 not registered by client 10.0.0.1:80");
        }
        _ => panic!("expected a refusal"),
    }
}

#[test]
fn binary_input_refusals() {
    let mut st = FoxgloveState::new("s".to_string());
    let (a, _, _) = st.connect_client("a".to_string());
    let refused = |st: &FoxgloveState, msg: &[u8]| match st.handle_binary_input(a, msg) {
        BinaryInput::Refused(s) => (s.level, s.message),
        _ => panic!("expected a refusal"),
    };
    assert_eq!(refused(&st, &[1, 2]), (2, "Received invalid binary message of size 2".to_string()));
    assert_eq!(refused(&st, &[7, 0, 0, 0, 0]), (2, "Received binary message with invalid operation 7".to_string()));
    assert_eq!(
        refused(&st, &[2, 0, 0, 0, 0, 0, 0]),
        (2, "Not enough bytes in message: expect 13 got: 7".to_string())
    );
    assert_eq!(
        refused(&st, &[2, 1, 0, 0, 0, 1, 0, 0, 0, 3, 0, 0, 0, b'a']),
        (2, "Not enough bytes in message: expect 16 got: 14".to_string())
    );
    assert_eq!(
        refused(&st, &[2, 1, 0, 0, 0, 1, 0, 0, 0, 0, 0, 0, 0]),
        (2, "Unknown service 1".to_string())
    );
}

#[test]
fn binary_input_service_call() {
    let mut st = FoxgloveState::new("s".to_string());
    let (sid, _) = st.add_service(service("svc"));
    let (a, _, _) = st.connect_client("a".to_string());
    let msg = [2, sid as u8, 0, 0, 0, 6, 0, 0, 0, 0, 0, 0, 0, 9, 9];
    match st.handle_binary_input(a, &msg) {
        BinaryInput::ServiceCall { service_id, call_id, encoding, payload, response_prefix } => {
            assert_eq!((service_id, call_id), (sid, 6));
            assert_eq!(encoding, "json");
            assert_eq!(payload, vec![9, 9]);
            assert_eq!(response_prefix, vec![3, sid as u8, 0, 0, 0, 6, 0, 0, 0, 4, 0, 0, 0, b'j', b's', b'o', b'n']);
        }
        _ => panic!("expected a service call"),
    }
    let mut msg = vec![2, sid as u8, 0, 0, 0, 6, 0, 0, 0, 3, 0, 0, 0];
    msg.extend_from_slice(b"cdr");
    msg.push(5);
    match st.handle_binary_input(a, &msg) {
        BinaryInput::ServiceCall { encoding, payload, response_prefix, .. } => {
            assert_eq!(encoding, "cdr");
            assert_eq!(payload, vec![5]);
            assert_eq!(response_prefix[0], 3);
            assert_eq!(&response_prefix[1..], &msg[1..16]);
        }
        _ => panic!("expected a service call"),
    }
}

#[test]
fn binary_input_lossy_encoding_name() {
    let mut st = FoxgloveState::new("s".to_string());
    let (sid, _) = st.add_service(service("svc"));
    let (a, _, _) = st.connect_client("a".to_string());
    let msg = [2, sid as u8, 0, 0, 0, 1, 0, 0, 0, 2, 0, 0, 0, b'a', 0xff];
    match st.handle_binary_input(a, &msg) {
        BinaryInput::ServiceCall { encoding, response_prefix, .. } => {
            assert_eq!(encoding, "a\u{FFFD}");
            assert_eq!(&response_prefix[9..13], &[4, 0, 0, 0]);
            assert_eq!(&response_prefix[13..], "a\u{FFFD}".as_bytes());
        }
        _ => panic!("expected a service call"),
    }
}

#[test]
fn text_input_kinds() {
    let kind = |t: &str| text_input_kind(t);
    assert!(matches!(kind(r#"{"op":"subscribe","subscriptions":[]}"#), TextInput::Request(TextOp::Subscribe)));
    assert!(matches!(kind(r#"{"op":"unsubscribe"}"#), TextInput::Request(TextOp::Unsubscribe)));
    assert!(matches!(kind(r#"{"op":"advertise"}"#), TextInput::Request(TextOp::Advertise)));
    assert!(matches!(kind(r#"{"op":"unadvertise"}"#), TextInput::Request(TextOp::Unadvertise)));
    assert!(matches!(kind(r#"{"op":"getParameters"}"#), TextInput::Request(TextOp::GetParameters)));
    assert!(matches!(kind(r#"{"op":"setParameters"}"#), TextInput::Request(TextOp::SetParameters)));
    assert!(matches!(
        kind(r#"{"op":"subscribeParameterUpdates"}"#),
        TextInput::Request(TextOp::SubscribeParameterUpdates)
    ));
    assert!(matches!(
        kind(r#"{"op":"unsubscribeParameterUpdates"}"#),
        TextInput::Request(TextOp::UnsubscribeParameterUpdates)
    ));
    match kind(r#"{"op":"fetchAsset"}"#) {
        TextInput::UnknownOp(op) => assert_eq!(op, "fetchAsset"),
        other => panic!("unexpected {:?}", other),
    }
    assert!(matches!(kind("not json"), TextInput::Unparsable));
    assert!(matches!(kind("[1, 2]"), TextInput::NotAnObject));
    assert!(matches!(kind(r#"{"id": 1}"#), TextInput::NoOp));
    assert!(matches!(kind(r#"{"op": 3}"#), TextInput::NoOp));
}

#[test]
fn repeated_advertisement_only_warns() {
    let mut st = FoxgloveState::new("s".to_string());
    let (a, _, _) = st.connect_client("a".to_string());
    let chans = vec![channel(4, "/x"), channel(5, "/y")];
    let (statuses, events) = st.handle_advertise(a, &chans);
    assert!(statuses.is_empty());
    assert_eq!(events.len(), 2);
    let (statuses, events) = st.handle_advertise(a, &chans);
    assert!(events.is_empty());
    assert_eq!(
        texts(&statuses),
        vec![
            (1, "Failed to add client channel 4".to_string()),
            (1, "Failed to add client channel 5".to_string()),
        ]
    );
    assert_eq!(st.clients[&a].advertisements_by_channel.len(), 2);
}

#[test]
fn repeated_parameter_subscription_changes_nothing() {
    let mut st = FoxgloveState::new("s".to_string());
    let (a, _, _) = st.connect_client("a".to_string());
    let names = vec!["p".to_string(), "q".to_string()];
    assert_eq!(st.handle_subscribe_parameter_updates(a, &names), vec!["p", "q"]);
    assert!(st.handle_subscribe_parameter_updates(a, &names).is_empty());
    assert_eq!(st.clients[&a].subscribed_params, vec!["p", "q"]);
}

#[test]
fn parameter_list_round_trip() {
    let mut st = FoxgloveState::new("s".to_string());
    let (a, _, _) = st.connect_client("a".to_string());
    st.handle_subscribe_parameter_updates(a, &vec!["old".to_string()]);
    let names = vec!["x".to_string(), "y".to_string(), "x".to_string(), "z".to_string()];
    let added = st.handle_subscribe_parameter_updates(a, &names);
    assert_eq!(added, vec!["x", "y", "z"]);
    let removed = st.handle_unsubscribe_parameter_updates(a, &names);
    assert_eq!(removed, added);
    assert_eq!(st.clients[&a].subscribed_params, vec!["old"]);
}
