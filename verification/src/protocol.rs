//! Versioned messages exchanged between the control plane and the agents, and
//! the frames that carry stream data.

use vstd::prelude::*;
use vstd::slice::slice_subrange;

use crate::number::{dec, decimal};

verus! {

pub const PROTOCOL_VERSION: u16 = 4;

pub const MAX_FRAME_BYTES: usize = 1048576;

/// Payload bytes read from a TCP socket into one data frame. Larger chunks cut
/// syscall, allocation and frame-header overhead while staying well under the
/// frame cap.
pub const TCP_CHUNK_SIZE: usize = 65536;

/// Runtime parameters the server pushes to an agent. The server is the source
/// of truth: local bootstrap values only cover the first connection, after
/// which `SettingsSync` replaces them.
#[derive(Debug, PartialEq, Eq)]
pub struct AgentSettings {
    pub device_name: String,
    pub server_url: String,
    pub data_channels: u16,
    pub heartbeat_secs: u64,
    pub pong_timeout_secs: u64,
    pub reconnect_min_secs: u64,
    pub reconnect_max_secs: u64,
    pub log_level: String,
}

#[allow(inconsistent_fields)]
#[derive(Debug, Clone, PartialEq, Eq)]
pub enum ControlMessage {
    Register { version: u16, token: String, device_name: String },
    Registered { device_id: String, tunnels: Vec<TunnelSpec> },
    Heartbeat { version: u16, latency_ms: u32 },
    /// Pairing request before registration: the agent shows a short code; the
    /// admin enters it to prove physical access before a token is issued.
    Enroll { code: String, device_name: String },
    /// Reply to a successful enrollment.
    Enrolled { token: String, device_id: String },
    SyncTunnels { tunnels: Vec<TunnelSpec> },
    /// The device's effective settings.
    SettingsSync { settings: AgentSettings },
    /// A new access token; the old ones are already revoked.
    TokenRotate { token: String },
    /// A new stream and the data channel that carries its frames.
    StreamOpen { stream_id: String, tunnel_id: String, data_channel: u16 },
    StreamClose { stream_id: String, reason: Option<String> },
    /// Asks the agent whether it can reach the tunnel's local service.
    ProbeLocal { probe_id: String, tunnel_id: String },
    ProbeResult { probe_id: String, ok: bool, message: Option<String> },
    /// The bandwidth cap for the agent's own outbound data; 0 disables it.
    BandwidthConfig { mbps: u64 },
    /// Asks the agent to restart its process.
    RestartAgent { restart_id: String, reason: Option<String> },
    /// Progress of a remote restart.
    RestartProgress { restart_id: String, progress: u8, phase: String, message: Option<String> },
    /// First message on a data socket: binds it to an online device.
    DataBind { token: String },
    /// Reply on a data socket, assigning its channel id.
    DataBound { channel_id: u16 },
    Error { code: String, message: String },
}

#[derive(Debug, PartialEq, Eq)]
pub struct TunnelSpec {
    pub id: String,
    pub name: String,
    pub kind: TunnelKind,
    pub public_port: u16,
    pub local_host: String,
    pub local_port: u16,
    pub enabled: bool,
    pub max_connections: u16,
}

#[derive(Debug, Clone, Copy, PartialEq, Eq, Structural)]
pub enum TunnelKind {
    Tcp,
    Http,
    Udp,
}

#[derive(Debug, PartialEq, Eq)]
pub enum ProtocolError {
    FrameTooLarge,
    UnsupportedVersion(u16),
    InvalidMessage(String),
}

impl Clone for AgentSettings {
    fn clone(&self) -> (r: Self)
        ensures
            r == *self,
    {
        AgentSettings {
            device_name: self.device_name.clone(),
            server_url: self.server_url.clone(),
            data_channels: self.data_channels,
            heartbeat_secs: self.heartbeat_secs,
            pong_timeout_secs: self.pong_timeout_secs,
            reconnect_min_secs: self.reconnect_min_secs,
            reconnect_max_secs: self.reconnect_max_secs,
            log_level: self.log_level.clone(),
        }
    }
}

impl Clone for TunnelSpec {
    fn clone(&self) -> (r: Self)
        ensures
            r == *self,
    {
        TunnelSpec {
            id: self.id.clone(),
            name: self.name.clone(),
            kind: self.kind,
            public_port: self.public_port,
            local_host: self.local_host.clone(),
            local_port: self.local_port,
            enabled: self.enabled,
            max_connections: self.max_connections,
        }
    }
}

/// The text of a protocol error.
pub open spec fn error_text(e: ProtocolError) -> Seq<char> {
    match e {
        ProtocolError::FrameTooLarge => "frame exceeds "@ + dec(MAX_FRAME_BYTES as nat)
            + " bytes"@,
        ProtocolError::UnsupportedVersion(v) => "unsupported protocol version "@ + dec(v as nat),
        ProtocolError::InvalidMessage(m) => "invalid control message: "@ + m@,
    }
}

impl ProtocolError {
    /// The error as shown to an operator.
    pub fn text(&self) -> (r: String)
        ensures
            r@ == error_text(*self),
    {
        match self {
            ProtocolError::FrameTooLarge => {
                let mut out = "frame exceeds ".to_owned();
                out.append(decimal(MAX_FRAME_BYTES as u128).as_str());
                out.append(" bytes");
                out
            },
            ProtocolError::UnsupportedVersion(v) => {
                let mut out = "unsupported protocol version ".to_owned();
                out.append(decimal(*v as u128).as_str());
                out
            },
            ProtocolError::InvalidMessage(m) => {
                let mut out = "invalid control message: ".to_owned();
                out.append(m.as_str());
                out
            },
        }
    }
}

/// The protocol version a message was sent under.
pub open spec fn message_version(m: ControlMessage) -> u16 {
    match m {
        ControlMessage::Register { version, .. } => version,
        ControlMessage::Heartbeat { version, .. } => version,
        _ => PROTOCOL_VERSION,
    }
}

/// What a frame of serialized control data stands for.
pub open spec fn framed(serialized: Result<Vec<u8>, String>) -> Result<Vec<u8>, ProtocolError> {
    match serialized {
        Err(text) => Err(ProtocolError::InvalidMessage(text)),
        Ok(bytes) => if bytes@.len() > MAX_FRAME_BYTES {
            Err(ProtocolError::FrameTooLarge)
        } else {
            Ok(bytes)
        },
    }
}

/// What a parsed control message stands for.
pub open spec fn accepted(parsed: Result<ControlMessage, String>) -> Result<
    ControlMessage,
    ProtocolError,
> {
    match parsed {
        Err(text) => Err(ProtocolError::InvalidMessage(text)),
        Ok(m) => if message_version(m) != PROTOCOL_VERSION {
            Err(ProtocolError::UnsupportedVersion(message_version(m)))
        } else {
            Ok(m)
        },
    }
}

/// Checks serialized control data against the frame cap.
pub fn frame_message(serialized: Result<Vec<u8>, String>) -> (r: Result<Vec<u8>, ProtocolError>)
    ensures
        r == framed(serialized),
{
    match serialized {
        Err(text) => Err(ProtocolError::InvalidMessage(text)),
        Ok(bytes) => {
            if bytes.len() > MAX_FRAME_BYTES {
                return Err(ProtocolError::FrameTooLarge);
            }
            Ok(bytes)
        },
    }
}

/// Checks a parsed message against the protocol version.
pub fn accept_message(parsed: Result<ControlMessage, String>) -> (r: Result<
    ControlMessage,
    ProtocolError,
>)
    ensures
        r == accepted(parsed),
{
    match parsed {
        Err(text) => Err(ProtocolError::InvalidMessage(text)),
        Ok(message) => {
            let version: u16 = match &message {
                ControlMessage::Register { version, .. } => *version,
                ControlMessage::Heartbeat { version, .. } => *version,
                _ => PROTOCOL_VERSION,
            };
            if version != PROTOCOL_VERSION {
                return Err(ProtocolError::UnsupportedVersion(version));
            }
            Ok(message)
        },
    }
}

/// Encodes one control message with the given serializer.
pub fn encode<F: FnOnce(&ControlMessage) -> Result<Vec<u8>, String>>(
    message: &ControlMessage,
    serialize: F,
) -> (r: Result<Vec<u8>, ProtocolError>)
    requires
        call_requires(serialize, (message,)),
    ensures
        exists|serialized: Result<Vec<u8>, String>|
            #[trigger] call_ensures(serialize, (message,), serialized) && r == framed(serialized),
{
    frame_message(serialize(message))
}

/// Decodes one control message with the given parser. A frame over the cap is
/// refused before the parser sees it.
pub fn decode<F: FnOnce(&[u8]) -> Result<ControlMessage, String>>(bytes: &[u8], parse: F) -> (r:
    Result<ControlMessage, ProtocolError>)
    requires
        bytes@.len() <= MAX_FRAME_BYTES ==> call_requires(parse, (bytes,)),
    ensures
        bytes@.len() > MAX_FRAME_BYTES ==> r == Err::<ControlMessage, _>(
            ProtocolError::FrameTooLarge,
        ),
        bytes@.len() <= MAX_FRAME_BYTES ==> exists|parsed: Result<ControlMessage, String>|
            #[trigger] call_ensures(parse, (bytes,), parsed) && r == accepted(parsed),
{
    if bytes.len() > MAX_FRAME_BYTES {
        return Err(ProtocolError::FrameTooLarge);
    }
    accept_message(parse(bytes))
}

/// The `len` low bytes of a number, most significant first.
pub open spec fn be_bytes(n: nat, len: nat) -> Seq<u8>
    decreases len,
{
    if len == 0 {
        Seq::empty()
    } else {
        be_bytes(n / 256, (len - 1) as nat).push((n % 256) as u8)
    }
}

/// The number that bytes stand for, most significant first.
pub open spec fn be_value(s: Seq<u8>) -> nat
    decreases s.len(),
{
    if s.len() == 0 {
        0
    } else {
        be_value(s.drop_last()) * 256 + s.last() as nat
    }
}

/// A stream frame: 16 bytes of stream id, then the payload.
pub open spec fn stream_frame(stream_id: u128, data: Seq<u8>) -> Seq<u8> {
    be_bytes(stream_id as nat, 16) + data
}

pub proof fn lemma_be_bytes(n: nat, len: nat)
    ensures
        be_bytes(n, len).len() == len,
    decreases len,
{
    if len > 0 {
        lemma_be_bytes(n / 256, (len - 1) as nat);
    }
}

proof fn lemma_pow_step(len: nat)
    ensures
        vstd::arithmetic::power::pow(256, len + 1) == 256 * vstd::arithmetic::power::pow(256, len),
        vstd::arithmetic::power::pow(256, len) > 0,
{
    vstd::arithmetic::power::lemma_pow1(256);
    vstd::arithmetic::power::lemma_pow_adds(256, 1, len);
    vstd::arithmetic::power::lemma_pow_positive(256, len);
}

proof fn lemma_be_value_bytes(n: nat, len: nat)
    requires
        n < vstd::arithmetic::power::pow(256, len),
    ensures
        be_value(be_bytes(n, len)) == n,
    decreases len,
{
    if len == 0 {
        vstd::arithmetic::power::lemma_pow0(256);
    } else {
        let k = (len - 1) as nat;
        lemma_pow_step(k);
        assert(n / 256 < vstd::arithmetic::power::pow(256, k)) by (nonlinear_arith)
            requires
                n < 256 * vstd::arithmetic::power::pow(256, k),
        ;
        lemma_be_value_bytes(n / 256, k);
        assert(be_bytes(n, len).drop_last() =~= be_bytes(n / 256, k));
    }
}

proof fn lemma_be_bytes_value(s: Seq<u8>)
    ensures
        be_bytes(be_value(s), s.len()) == s,
        be_value(s) < vstd::arithmetic::power::pow(256, s.len()),
    decreases s.len(),
{
    if s.len() == 0 {
        vstd::arithmetic::power::lemma_pow0(256);
        assert(be_bytes(be_value(s), s.len()) =~= s);
    } else {
        let k = (s.len() - 1) as nat;
        lemma_be_bytes_value(s.drop_last());
        lemma_pow_step(k);
        let v = be_value(s.drop_last());
        assert(be_value(s) / 256 == v);
        assert(be_value(s) % 256 == s.last());
        assert(be_bytes(be_value(s), s.len()) =~= s);
    }
}

proof fn lemma_id_range()
    ensures
        vstd::arithmetic::power::pow(256, 16) == u128::MAX + 1,
{
    reveal(vstd::arithmetic::power::pow);
    lemma_pow_step(0);
    lemma_pow_step(1);
    lemma_pow_step(2);
    lemma_pow_step(3);
    lemma_pow_step(4);
    lemma_pow_step(5);
    lemma_pow_step(6);
    lemma_pow_step(7);
    lemma_pow_step(8);
    lemma_pow_step(9);
    lemma_pow_step(10);
    lemma_pow_step(11);
    lemma_pow_step(12);
    lemma_pow_step(13);
    lemma_pow_step(14);
    lemma_pow_step(15);
    vstd::arithmetic::power::lemma_pow0(256);
}

/// A stream frame gives back the stream id and the payload it was made of.
pub proof fn stream_frame_round_trip(stream_id: u128, data: Seq<u8>)
    ensures
        stream_frame(stream_id, data).len() == data.len() + 16,
        be_value(stream_frame(stream_id, data).take(16)) == stream_id,
        stream_frame(stream_id, data).skip(16) == data,
{
    lemma_be_bytes(stream_id as nat, 16);
    lemma_id_range();
    lemma_be_value_bytes(stream_id as nat, 16);
    let f = stream_frame(stream_id, data);
    assert(f.take(16) =~= be_bytes(stream_id as nat, 16));
    assert(f.skip(16) =~= data);
}

/// Every frame that decodes is the frame of the stream id and payload that it
/// decodes to.
pub proof fn stream_frame_canonical(frame: Seq<u8>)
    requires
        frame.len() >= 16,
    ensures
        be_value(frame.take(16)) <= u128::MAX,
        stream_frame(be_value(frame.take(16)) as u128, frame.skip(16)) == frame,
{
    lemma_be_bytes_value(frame.take(16));
    lemma_id_range();
    assert(frame.take(16) + frame.skip(16) =~= frame);
}

/// Two streams never share a frame.
pub proof fn stream_frames_distinct(a: u128, x: Seq<u8>, b: u128, y: Seq<u8>)
    requires
        stream_frame(a, x) == stream_frame(b, y),
    ensures
        a == b,
        x == y,
{
    stream_frame_round_trip(a, x);
    stream_frame_round_trip(b, y);
}

/// One chunk read from a TCP socket always fits a frame.
pub proof fn tcp_chunk_fits_frame(stream_id: u128, data: Seq<u8>)
    requires
        data.len() <= TCP_CHUNK_SIZE,
    ensures
        stream_frame(stream_id, data).len() <= MAX_FRAME_BYTES,
{
    stream_frame_round_trip(stream_id, data);
}

/// Appends the stream id to a frame.
pub(crate) fn push_id(frame: &mut Vec<u8>, n: u128, len: usize)
    ensures
        final(frame)@ == old(frame)@ + be_bytes(n as nat, len as nat),
    decreases len,
{
    if len > 0 {
        push_id(frame, n / 256, len - 1);
        frame.push((n % 256) as u8);
    }
}

/// Text frames carry control messages; binary frames carry stream data: the
/// 16-byte stream id followed by the raw payload.
pub fn encode_stream_data(stream_id: u128, data: &[u8]) -> (r: Result<Vec<u8>, ProtocolError>)
    ensures
        data@.len() + 16 > MAX_FRAME_BYTES ==> r == Err::<Vec<u8>, _>(
            ProtocolError::FrameTooLarge,
        ),
        data@.len() + 16 <= MAX_FRAME_BYTES ==> (r matches Ok(frame) && frame@ == stream_frame(
            stream_id,
            data@,
        )),
{
    if data.len() > MAX_FRAME_BYTES - 16 {
        return Err(ProtocolError::FrameTooLarge);
    }
    let mut frame: Vec<u8> = Vec::with_capacity(16 + data.len());
    push_id(&mut frame, stream_id, 16);
    frame.extend_from_slice(data);
    assert(frame@ =~= stream_frame(stream_id, data@));
    Ok(frame)
}

/// The stream id and the payload of a frame.
pub fn decode_stream_data(frame: &[u8]) -> (r: Result<(u128, &[u8]), ProtocolError>)
    ensures
        frame@.len() < 16 || frame@.len() > MAX_FRAME_BYTES ==> (r matches Err(
            ProtocolError::InvalidMessage(text),
        ) && text@ == "invalid stream frame"@),
        16 <= frame@.len() <= MAX_FRAME_BYTES ==> (r matches Ok(p) && p.0 == be_value(
            frame@.take(16),
        ) && p.1@ == frame@.skip(16)),
{
    if frame.len() < 16 || frame.len() > MAX_FRAME_BYTES {
        return Err(ProtocolError::InvalidMessage("invalid stream frame".to_owned()));
    }
    let mut id: u128 = 0;
    let mut i: usize = 0;
    proof {
        lemma_id_range();
        lemma_be_bytes_value(frame@.take(16));
        assert(frame@.take(0) =~= Seq::<u8>::empty());
    }
    while i < 16
        invariant
            i <= 16 <= frame@.len(),
            id == be_value(frame@.take(i as int)),
        decreases 16 - i,
    {
        proof {
            let next = frame@.take(i + 1);
            lemma_be_bytes_value(next);
            lemma_id_range();
            assert(next.drop_last() =~= frame@.take(i as int));
            vstd::arithmetic::power::lemma_pow_increases(256, (i + 1) as nat, 16);
        }
        id = id * 256 + frame[i] as u128;
        i += 1;
    }
    let data = slice_subrange(frame, 16, frame.len());
    assert(data@ =~= frame@.skip(16));
    Ok((id, data))
}

/// Decoding an encoded stream frame gives back the stream id and the payload:
/// this is what `decode_stream_data` answers for the frame that
/// `encode_stream_data` made.
pub proof fn stream_data_round_trip(
    stream_id: u128,
    data: Seq<u8>,
    frame: Seq<u8>,
    decoded_id: u128,
    decoded: Seq<u8>,
)
    requires
        frame == stream_frame(stream_id, data),
        decoded_id == be_value(frame.take(16)),
        decoded == frame.skip(16),
    ensures
        decoded_id == stream_id,
        decoded == data,
{
    stream_frame_round_trip(stream_id, data);
}

/// A message of this protocol version comes back from its frame, wherever the
/// parser reads back what the serializer wrote.
pub proof fn control_message_round_trip(
    message: ControlMessage,
    serialize: spec_fn(ControlMessage) -> Result<Vec<u8>, String>,
    parse: spec_fn(Seq<u8>) -> Result<ControlMessage, String>,
)
    requires
        message_version(message) == PROTOCOL_VERSION,
        serialize(message) matches Ok(bytes) ==> parse(bytes@) == Ok::<ControlMessage, String>(
            message,
        ),
    ensures
        framed(serialize(message)) matches Ok(bytes) ==> bytes@.len() <= MAX_FRAME_BYTES
            && accepted(parse(bytes@)) == Ok::<ControlMessage, ProtocolError>(message),
{
}

/// Only registrations and heartbeats name a version, so nothing else is
/// refused for its version.
pub proof fn unversioned_messages_accepted(message: ControlMessage)
    requires
        !(message is Register),
        !(message is Heartbeat),
    ensures
        accepted(Ok(message)) == Ok::<ControlMessage, ProtocolError>(message),
{
}

/// Bytes stand in the order of their weight, the heaviest first: the last is
/// what is left by 256, and those before it stand for the rest.
pub proof fn id_is_big_endian(stream_id: u128, data: Seq<u8>)
    ensures
        stream_frame(stream_id, data)[15] == stream_id % 256,
        stream_frame(stream_id, data)[14] == (stream_id / 256) % 256,
        stream_frame(stream_id, data)[0] == stream_id
            / 1_329_227_995_784_915_872_903_807_060_280_344_576,
{
    lemma_be_bytes(stream_id as nat, 16);
    reveal_with_fuel(be_bytes, 17);
    let n = stream_id as nat;
    assert(n / 256 / 256 / 256 / 256 / 256 / 256 / 256 / 256 / 256 / 256 / 256 / 256 / 256 / 256
        / 256 == n / 1_329_227_995_784_915_872_903_807_060_280_344_576);
    assert(n / 1_329_227_995_784_915_872_903_807_060_280_344_576 < 256);
    lemma_be_bytes(n / 256, 15);
    lemma_be_bytes(n / 256 / 256, 14);
    assert(be_bytes(n, 16)[15] == (n % 256) as u8);
    assert(be_bytes(n, 16)[14] == be_bytes(n / 256, 15)[14]);
}

/// Both sides must speak the same protocol: a registration and a heartbeat of
/// another version than four is refused, and named in the refusal.
pub proof fn other_versions_refused(
    version: u16,
    token: String,
    device_name: String,
    latency_ms: u32,
)
    ensures
        ({
            let m = ControlMessage::Register { version, token, device_name };
            accepted(Ok(m)) == if version == 4 {
                Ok::<ControlMessage, ProtocolError>(m)
            } else {
                Err(ProtocolError::UnsupportedVersion(version))
            }
        }),
        ({
            let m = ControlMessage::Heartbeat { version, latency_ms };
            accepted(Ok(m)) == if version == 4 {
                Ok::<ControlMessage, ProtocolError>(m)
            } else {
                Err(ProtocolError::UnsupportedVersion(version))
            }
        }),
{
}

/// A control message goes out as it was serialized, unless it is over a
/// mebibyte or could not be serialized; the refusal of what could not be read
/// or written says why.
pub proof fn messages_within_a_mebibyte(bytes: Vec<u8>, text: String)
    ensures
        framed(Ok(bytes)) == if bytes@.len() <= 1_048_576 {
            Ok::<Vec<u8>, ProtocolError>(bytes)
        } else {
            Err(ProtocolError::FrameTooLarge)
        },
        framed(Err(text)) == Err::<Vec<u8>, ProtocolError>(ProtocolError::InvalidMessage(text)),
        accepted(Err(text)) == Err::<ControlMessage, ProtocolError>(
            ProtocolError::InvalidMessage(text),
        ),
{
}

/// A chunk of a stream is sixty-four kibibytes, and fits a frame with its id.
pub proof fn chunk_fits_a_frame(id: u128, data: Seq<u8>)
    requires
        data.len() == TCP_CHUNK_SIZE,
    ensures
        data.len() == 64 * 1024,
        stream_frame(id, data).len() <= 1024 * 1024,
{
    lemma_be_bytes(id as nat, 16);
}

} // verus!
