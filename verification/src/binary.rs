//! The binary frames of the protocol: little-endian integers, the frames a
//! client sends (message data, service call requests) and the frames the
//! server sends (message data, service call responses).

use vstd::prelude::*;
use vstd::slice::{slice_subrange, slice_to_vec};

verus! {

/// `256` raised to the `n`-th power.
pub open spec fn byte_base(n: nat) -> nat
    decreases n,
{
    if n == 0 {
        1
    } else {
        256 * byte_base((n - 1) as nat)
    }
}

/// The number that a little-endian byte sequence stands for.
pub open spec fn le_value(s: Seq<u8>) -> nat
    decreases s.len(),
{
    if s.len() == 0 {
        0
    } else {
        s[0] as nat + 256 * le_value(s.drop_first())
    }
}

/// The `n` least significant bytes of `x`, least significant first.
pub open spec fn le_bytes(x: nat, n: nat) -> Seq<u8>
    decreases n,
{
    if n == 0 {
        Seq::empty()
    } else {
        seq![(x % 256) as u8] + le_bytes(x / 256, (n - 1) as nat)
    }
}

/// A sequence of `n` bytes stands for a number below `256^n`.
pub proof fn lemma_le_value_bound(s: Seq<u8>)
    ensures
        le_value(s) < byte_base(s.len()),
    decreases s.len(),
{
    if s.len() > 0 {
        lemma_le_value_bound(s.drop_first());
    }
}

/// Encoding a number below `256^n` into `n` bytes and reading them back gives the number.
pub proof fn lemma_le_value_of_bytes(x: nat, n: nat)
    requires
        x < byte_base(n),
    ensures
        le_bytes(x, n).len() == n,
        le_value(le_bytes(x, n)) == x,
    decreases n,
{
    if n > 0 {
        let rest = le_bytes(x / 256, (n - 1) as nat);
        lemma_le_value_of_bytes(x / 256, (n - 1) as nat);
        assert(le_bytes(x, n).drop_first() =~= rest);
    }
}

/// Reading `n` bytes and encoding the number back into `n` bytes gives the same bytes.
pub proof fn lemma_le_bytes_of_value(s: Seq<u8>)
    ensures
        le_bytes(le_value(s), s.len()) == s,
    decreases s.len(),
{
    if s.len() > 0 {
        lemma_le_bytes_of_value(s.drop_first());
        let v = le_value(s);
        assert(v % 256 == s[0] as nat);
        assert(v / 256 == le_value(s.drop_first()));
        assert(le_bytes(v, s.len()) =~= s);
    }
}

/// Reads the four bytes at `start` as a little-endian `u32`.
pub fn read_u32_le(bytes: &[u8], start: usize) -> (v: u32)
    requires
        start + 4 <= bytes@.len(),
    ensures
        v == le_value(bytes@.subrange(start as int, start + 4)),
{
    let s = Ghost(bytes@.subrange(start as int, start + 4));
    let b0 = bytes[start] as u32;
    let b1 = bytes[start + 1] as u32;
    let b2 = bytes[start + 2] as u32;
    let b3 = bytes[start + 3] as u32;
    proof {
        reveal_with_fuel(le_value, 5);
        assert(s@.drop_first().drop_first().drop_first().drop_first().len() == 0);
    }
    b0 + 256 * (b1 + 256 * (b2 + 256 * b3))
}

/// Appends the little-endian bytes of `x` to `out`.
pub fn push_u32_le(out: &mut Vec<u8>, x: u32)
    ensures
        final(out)@ == old(out)@ + le_bytes(x as nat, 4),
{
    out.push((x % 256) as u8);
    out.push(((x / 256) % 256) as u8);
    out.push(((x / 65536) % 256) as u8);
    out.push(((x / 16777216) % 256) as u8);
    proof {
        reveal_with_fuel(le_bytes, 5);
        assert(final(out)@ =~= old(out)@ + le_bytes(x as nat, 4));
    }
}


/// Appends the little-endian bytes of `x` to `out`.
pub fn push_u64_le(out: &mut Vec<u8>, x: u64)
    ensures
        final(out)@ == old(out)@ + le_bytes(x as nat, 8),
{
    out.push((x % 256) as u8);
    out.push(((x / 256) % 256) as u8);
    out.push(((x / 65536) % 256) as u8);
    out.push(((x / 16777216) % 256) as u8);
    out.push(((x / 4294967296) % 256) as u8);
    out.push(((x / 1099511627776) % 256) as u8);
    out.push(((x / 281474976710656) % 256) as u8);
    out.push(((x / 72057594037927936) % 256) as u8);
    proof {
        reveal_with_fuel(le_bytes, 9);
        let n = x as nat;
        assert(n / 256 / 256 == n / 65536);
        assert(n / 65536 / 256 == n / 16777216);
        assert(n / 16777216 / 256 == n / 4294967296);
        assert(n / 4294967296 / 256 == n / 1099511627776);
        assert(n / 1099511627776 / 256 == n / 281474976710656);
        assert(n / 281474976710656 / 256 == n / 72057594037927936);
        assert(out@ =~= old(out)@ + le_bytes(x as nat, 8));
    }
}

/// Appends `bytes` to `out`.
pub fn push_bytes(out: &mut Vec<u8>, bytes: &[u8])
    ensures
        final(out)@ == old(out)@ + bytes@,
{
    let n = bytes.len();
    for i in 0..n
        invariant
            n == bytes@.len(),
            out@ == old(out)@ + bytes@.take(i as int),
    {
        out.push(bytes[i]);
        assert(bytes@.take(i + 1) =~= bytes@.take(i as int).push(bytes@[i as int]));
    }
    assert(bytes@.take(n as int) =~= bytes@);
}

/// A frame sent by a client, as mathematical values.
pub enum ClientFrameSpec {
    MessageData { channel_id: u32, payload: Seq<u8> },
    ServiceCallRequest { service_id: u32, call_id: u32, encoding: Seq<u8>, payload: Seq<u8> },
}

/// A frame sent by a client.
#[derive(Debug, Clone)]
pub enum ClientFrame {
    /// A message on a channel the client advertised.
    MessageData { channel_id: u32, payload: Vec<u8> },
    /// A call of a service the server advertised; `encoding` holds the raw
    /// bytes of the encoding name.
    ServiceCallRequest { service_id: u32, call_id: u32, encoding: Vec<u8>, payload: Vec<u8> },
}

impl View for ClientFrame {
    type V = ClientFrameSpec;

    open spec fn view(&self) -> ClientFrameSpec {
        match self {
            ClientFrame::MessageData { channel_id, payload } => ClientFrameSpec::MessageData {
                channel_id: *channel_id,
                payload: payload@,
            },
            ClientFrame::ServiceCallRequest { service_id, call_id, encoding, payload } =>
                ClientFrameSpec::ServiceCallRequest {
                service_id: *service_id,
                call_id: *call_id,
                encoding: encoding@,
                payload: payload@,
            },
        }
    }
}

/// Why a client frame could not be read.
#[derive(PartialEq, Eq, Structural, Debug, Clone, Copy)]
pub enum FrameError {
    /// Fewer than five bytes.
    TooShort { len: usize },
    /// A service call request of fewer than thirteen bytes.
    ServiceCallTooShort { len: usize },
    /// A service call request whose encoding name runs past the end of the frame;
    /// `expected` is the length the frame would need.
    EncodingTruncated { expected: u64, len: usize },
    /// A first byte that is no client opcode.
    UnknownOpcode { opcode: u8 },
}

/// The fields of a frame sent by a client, or why it cannot be read.
///
/// Layout: one opcode byte; for message data (opcode 1) a `u32` channel id and
/// the payload; for a service call request (opcode 2) a `u32` service id, a
/// `u32` call id, a `u32` encoding length, that many bytes of encoding name,
/// and the payload. Integers are little-endian.
pub open spec fn decode_client_frame(s: Seq<u8>) -> Result<ClientFrameSpec, FrameError> {
    if s.len() < 5 {
        Err(FrameError::TooShort { len: s.len() as usize })
    } else if s[0] == 1 {
        Ok(ClientFrameSpec::MessageData {
            channel_id: le_value(s.subrange(1, 5)) as u32,
            payload: s.subrange(5, s.len() as int),
        })
    } else if s[0] == 2 {
        if s.len() < 13 {
            Err(FrameError::ServiceCallTooShort { len: s.len() as usize })
        } else {
            let enc_len = le_value(s.subrange(9, 13));
            if 13 + enc_len > s.len() {
                Err(FrameError::EncodingTruncated { expected: (13 + enc_len) as u64, len: s.len() as usize })
            } else {
                Ok(ClientFrameSpec::ServiceCallRequest {
                    service_id: le_value(s.subrange(1, 5)) as u32,
                    call_id: le_value(s.subrange(5, 9)) as u32,
                    encoding: s.subrange(13, 13 + enc_len as int),
                    payload: s.subrange(13 + enc_len as int, s.len() as int),
                })
            }
        }
    } else {
        Err(FrameError::UnknownOpcode { opcode: s[0] })
    }
}

/// Reads a frame sent by a client.
pub fn read_client_frame(msg: &[u8]) -> (r: Result<ClientFrame, FrameError>)
    ensures
        match r {
            Ok(f) => decode_client_frame(msg@) == Ok::<ClientFrameSpec, FrameError>(f@),
            Err(e) => decode_client_frame(msg@) == Err::<ClientFrameSpec, FrameError>(e),
        },
{
    let len = msg.len();
    if len < 5 {
        return Err(FrameError::TooShort { len });
    }
    if msg[0] == 1 {
        let channel_id = read_u32_le(msg, 1);
        proof { lemma_le_value_bound(msg@.subrange(1, 5)); reveal_with_fuel(byte_base, 5); }
        let payload = slice_to_vec(slice_subrange(msg, 5, len));
        Ok(ClientFrame::MessageData { channel_id, payload })
    } else if msg[0] == 2 {
        if len < 13 {
            return Err(FrameError::ServiceCallTooShort { len });
        }
        let service_id = read_u32_le(msg, 1);
        let call_id = read_u32_le(msg, 5);
        let enc_len = read_u32_le(msg, 9);
        proof {
            lemma_le_value_bound(msg@.subrange(1, 5));
            lemma_le_value_bound(msg@.subrange(5, 9));
            lemma_le_value_bound(msg@.subrange(9, 13));
            reveal_with_fuel(byte_base, 5);
        }
        let expected: u64 = 13 + enc_len as u64;
        if expected > len as u64 {
            return Err(FrameError::EncodingTruncated { expected, len });
        }
        let end = expected as usize;
        let encoding = slice_to_vec(slice_subrange(msg, 13, end));
        let payload = slice_to_vec(slice_subrange(msg, end, len));
        Ok(ClientFrame::ServiceCallRequest { service_id, call_id, encoding, payload })
    } else {
        Err(FrameError::UnknownOpcode { opcode: msg[0] })
    }
}

/// The message-data frame the server sends for subscription `sub`: opcode 1,
/// the subscription id, the timestamp, then the payload.
pub open spec fn message_data_frame(sub: u32, timestamp: u64, payload: Seq<u8>) -> Seq<u8> {
    seq![1u8] + le_bytes(sub as nat, 4) + le_bytes(timestamp as nat, 8) + payload
}

/// Builds the message-data frame for subscription `sub`.
pub fn encode_message_data(sub: u32, timestamp: u64, payload: &[u8]) -> (r: Vec<u8>)
    ensures
        r@ == message_data_frame(sub, timestamp, payload@),
{
    let mut out: Vec<u8> = Vec::new();
    out.push(1u8);
    push_u32_le(&mut out, sub);
    push_u64_le(&mut out, timestamp);
    push_bytes(&mut out, payload);
    assert(out@ =~= message_data_frame(sub, timestamp, payload@));
    out
}

/// The start of the service-call-response frame: opcode 3, the service id,
/// the call id, the length of the encoding name (modulo `2^32`) and the
/// encoding name. The response payload follows it.
pub open spec fn service_call_response_prefix(service_id: u32, call_id: u32, encoding: Seq<u8>) -> Seq<u8> {
    seq![3u8] + le_bytes(service_id as nat, 4) + le_bytes(call_id as nat, 4) + le_bytes(
        (encoding.len() as u32) as nat,
        4,
    ) + encoding
}

/// Builds the start of a service-call-response frame.
pub fn encode_service_call_response_prefix(service_id: u32, call_id: u32, encoding: &[u8]) -> (r: Vec<u8>)
    ensures
        r@ == service_call_response_prefix(service_id, call_id, encoding@),
{
    let mut out: Vec<u8> = Vec::new();
    out.push(3u8);
    push_u32_le(&mut out, service_id);
    push_u32_le(&mut out, call_id);
    push_u32_le(&mut out, encoding.len() as u32);
    push_bytes(&mut out, encoding);
    assert(out@ =~= service_call_response_prefix(service_id, call_id, encoding@));
    out
}

} // verus!
