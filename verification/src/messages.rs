//! The control messages that servers and agents build.

use vstd::prelude::*;

use crate::ids::{id_text, uuid_text};
use crate::number::{dec, decimal, number_round_trip, unsigned_value};
use crate::protocol::{ControlMessage, PROTOCOL_VERSION};

verus! {

/// Why a stream is closed, as told to the other side.
#[derive(Debug, Clone, Copy, PartialEq, Eq, Structural)]
pub enum CloseReason {
    StreamSendTimeout,
    StreamChannelClosed,
    UdpSessionClosed,
    DataChannelLost,
    ControlLost,
    TunnelDisabled,
    UdpSessionTimeout,
    ServerShutdown,
    LocalConnectFailed,
    LocalBindFailed,
}

/// The word for a reason.
pub open spec fn reason_text(r: CloseReason) -> Seq<char> {
    match r {
        CloseReason::StreamSendTimeout => "stream_send_timeout"@,
        CloseReason::StreamChannelClosed => "stream_channel_closed"@,
        CloseReason::UdpSessionClosed => "udp_session_closed"@,
        CloseReason::DataChannelLost => "data_channel_lost"@,
        CloseReason::ControlLost => "control_lost"@,
        CloseReason::TunnelDisabled => "tunnel_disabled"@,
        CloseReason::UdpSessionTimeout => "udp_session_timeout"@,
        CloseReason::ServerShutdown => "server_shutdown"@,
        CloseReason::LocalConnectFailed => "local_connect_failed"@,
        CloseReason::LocalBindFailed => "local_bind_failed"@,
    }
}

impl CloseReason {
    /// The word for a reason.
    pub fn text(self) -> (r: String)
        ensures
            r@ == reason_text(self),
    {
        match self {
            CloseReason::StreamSendTimeout => "stream_send_timeout".to_owned(),
            CloseReason::StreamChannelClosed => "stream_channel_closed".to_owned(),
            CloseReason::UdpSessionClosed => "udp_session_closed".to_owned(),
            CloseReason::DataChannelLost => "data_channel_lost".to_owned(),
            CloseReason::ControlLost => "control_lost".to_owned(),
            CloseReason::TunnelDisabled => "tunnel_disabled".to_owned(),
            CloseReason::UdpSessionTimeout => "udp_session_timeout".to_owned(),
            CloseReason::ServerShutdown => "server_shutdown".to_owned(),
            CloseReason::LocalConnectFailed => "local_connect_failed".to_owned(),
            CloseReason::LocalBindFailed => "local_bind_failed".to_owned(),
        }
    }
}

/// Whether a message closes a stream for a reason.
pub open spec fn closes_stream(m: ControlMessage, id: u128, reason: Option<Seq<char>>) -> bool {
    m matches ControlMessage::StreamClose { stream_id, reason: given } && stream_id@ == dec(
        id as nat,
    ) && match (given, reason) {
        (None, None) => true,
        (Some(text), Some(expected)) => text@ == expected,
        _ => false,
    }
}

/// Closes a stream; without a reason where it ended by itself.
pub fn stream_close(id: u128, reason: Option<CloseReason>) -> (r: ControlMessage)
    ensures
        closes_stream(
            r,
            id,
            match reason {
                Some(why) => Some(reason_text(why)),
                None => None,
            },
        ),
{
    let reason = match reason {
        Some(why) => Some(why.text()),
        None => None,
    };
    ControlMessage::StreamClose { stream_id: decimal(id), reason }
}

/// Whether a message opens a stream of a tunnel on a channel.
pub open spec fn opens_stream(m: ControlMessage, id: u128, tunnel_id: u128, channel: u16) -> bool {
    m matches ControlMessage::StreamOpen { stream_id, tunnel_id: t, data_channel } && stream_id@
        == dec(id as nat) && t@ == uuid_text(tunnel_id) && data_channel == channel
}

/// Opens a stream of a tunnel on a data channel.
pub fn stream_open(id: u128, tunnel_id: u128, data_channel: u16) -> (r: ControlMessage)
    ensures
        opens_stream(r, id, tunnel_id, data_channel),
{
    ControlMessage::StreamOpen {
        stream_id: decimal(id),
        tunnel_id: id_text(tunnel_id),
        data_channel,
    }
}

/// Whether a message is an error of a code.
pub open spec fn tells_error(m: ControlMessage, code: Seq<char>, text: Seq<char>) -> bool {
    m matches ControlMessage::Error { code: c, message } && c@ == code && message@ == text
}

/// Tells the other side of an error.
pub fn error_message(code: &str, text: &str) -> (r: ControlMessage)
    ensures
        tells_error(r, code@, text@),
{
    ControlMessage::Error { code: code.to_owned(), message: text.to_owned() }
}

/// A sign of life, with the last measured latency.
pub fn heartbeat(latency_ms: u32) -> (r: ControlMessage)
    ensures
        r == (ControlMessage::Heartbeat { version: PROTOCOL_VERSION, latency_ms }),
{
    ControlMessage::Heartbeat { version: PROTOCOL_VERSION, latency_ms }
}

/// Registers an agent under its token.
pub fn register(token: &str, device_name: &str) -> (r: ControlMessage)
    ensures
        r matches ControlMessage::Register { version, token: t, device_name: n } && version
            == PROTOCOL_VERSION && t@ == token@ && n@ == device_name@,
        registers(r, token@, device_name@),
{
    ControlMessage::Register {
        version: PROTOCOL_VERSION,
        token: token.to_owned(),
        device_name: device_name.to_owned(),
    }
}

/// Asks for enrollment under a code.
pub fn enroll(code: &str, device_name: &str) -> (r: ControlMessage)
    ensures
        r matches ControlMessage::Enroll { code: c, device_name: n } && c@ == code@ && n@
            == device_name@,
        asks_enrollment(r, code@, device_name@),
{
    ControlMessage::Enroll { code: code.to_owned(), device_name: device_name.to_owned() }
}

/// Binds a data socket under a token.
pub fn data_bind(token: &str) -> (r: ControlMessage)
    ensures
        r matches ControlMessage::DataBind { token: t } && t@ == token@,
        binds_data(r, token@),
{
    ControlMessage::DataBind { token: token.to_owned() }
}

/// What the two sides say of a stream is understood: its id reads back from the
/// message, and with it its tunnel, its channel and the reason.
pub proof fn stream_messages_name_their_stream(
    m: ControlMessage,
    id: u128,
    tunnel_id: u128,
    channel: u16,
    reason: Option<Seq<char>>,
)
    ensures
        opens_stream(m, id, tunnel_id, channel) ==> (m matches ControlMessage::StreamOpen {
            stream_id,
            tunnel_id: t,
            data_channel,
        } && unsigned_value(stream_id@, u128::MAX as nat) == Some(id as nat) && t@ == uuid_text(
            tunnel_id,
        ) && data_channel == channel),
        closes_stream(m, id, reason) ==> (m matches ControlMessage::StreamClose {
            stream_id,
            reason: given,
        } && unsigned_value(stream_id@, u128::MAX as nat) == Some(id as nat) && (given is Some
            <==> reason is Some) && (given matches Some(text) ==> reason == Some(text@))),
{
    number_round_trip(id as nat, u128::MAX as nat);
}

/// Each reason has its own word.
pub proof fn reasons_are_told_apart(a: CloseReason, b: CloseReason)
    requires
        reason_text(a) == reason_text(b),
    ensures
        a == b,
{
    reveal_strlit("stream_send_timeout");
    reveal_strlit("stream_channel_closed");
    reveal_strlit("udp_session_closed");
    reveal_strlit("data_channel_lost");
    reveal_strlit("control_lost");
    reveal_strlit("tunnel_disabled");
    reveal_strlit("udp_session_timeout");
    reveal_strlit("server_shutdown");
    reveal_strlit("local_connect_failed");
    reveal_strlit("local_bind_failed");
    let x = reason_text(a);
    let y = reason_text(b);
    if a != b {
        assert(x.len() != y.len() || x[0] != y[0] || x[6] != y[6] || x[7] != y[7]);
    }
}

/// Whether a message registers an agent under a token.
pub open spec fn registers(m: ControlMessage, token: Seq<char>, device_name: Seq<char>) -> bool {
    m matches ControlMessage::Register { version, token: t, device_name: n } && version
        == PROTOCOL_VERSION && t@ == token && n@ == device_name
}

/// Whether a message asks for enrollment under a code.
pub open spec fn asks_enrollment(
    m: ControlMessage,
    code: Seq<char>,
    device_name: Seq<char>,
) -> bool {
    m matches ControlMessage::Enroll { code: c, device_name: n } && c@ == code && n@ == device_name
}

/// Whether a message binds a data socket under a token.
pub open spec fn binds_data(m: ControlMessage, token: Seq<char>) -> bool {
    m matches ControlMessage::DataBind { token: t } && t@ == token
}

/// An error says its code and its text; nothing else is one.
pub proof fn error_says_code_and_text(
    m: ControlMessage,
    code: Seq<char>,
    text: Seq<char>,
    other: Seq<char>,
)
    requires
        tells_error(m, code, text),
    ensures
        m is Error && m->Error_code@ == code && m->Error_message@ == text,
        tells_error(m, other, text) ==> other == code,
        tells_error(m, code, other) ==> other == text,
{
}

} // verus!
