//! What the server does with what arrives on control and data sockets.

use vstd::prelude::*;

use crate::ids::{id_text, uuid_text};
use crate::messages::{
    asks_enrollment, binds_data, closes_stream, error_message, heartbeat, reason_text, registers,
    stream_close, tells_error, CloseReason,
};
use crate::number::{number_round_trip, parse_u128, unsigned_value};
use crate::plane::{
    after_route, heartbeat_noted, outcome_of, signed_latency, target_of, DataPlane, QueueResult, RouteOutcome, RouteTarget,
};
use crate::plane_model::{drop_streams, drop_udp, slot_freed, HeartbeatEntry, PlaneView, SECOND};
use crate::protocol::{
    decode_stream_data, lemma_be_bytes, stream_frame, stream_frame_canonical,
    stream_frames_distinct, AgentSettings, ControlMessage, TunnelSpec, MAX_FRAME_BYTES,
    PROTOCOL_VERSION,
};
use crate::text::same_text;
use crate::token::{hash_token, token_hash};

verus! {

/// Seconds between warnings that an echo was dropped, at least.
pub const ECHO_DROP_WARN_SECS: u64 = 10;

/// What the first message on a control socket asks for.
#[derive(Debug, PartialEq, Eq)]
pub enum Opening {
    /// Registration under a token, given by its hash.
    Register { token_hash: String, device_name: String },
    /// Pairing under a code.
    Enroll { code: String, device_name: String },
    /// Nothing that may come first; the socket is closed.
    Refused,
}

/// Takes the first message on a control socket.
pub fn open_control(message: ControlMessage) -> (r: Opening)
    ensures
        match message {
            ControlMessage::Register { token, device_name, .. } => r matches Opening::Register {
                token_hash: h,
                device_name: n,
            } && h@ == token_hash(token@) && n == device_name,
            ControlMessage::Enroll { code, device_name } => r == (Opening::Enroll {
                code,
                device_name,
            }),
            _ => r == Opening::Refused,
        },
        taken_as(message, r),
{
    match message {
        ControlMessage::Register { token, device_name, .. } => Opening::Register {
            token_hash: hash_token(token.as_str()),
            device_name,
        },
        ControlMessage::Enroll { code, device_name } => Opening::Enroll { code, device_name },
        _ => Opening::Refused,
    }
}

/// Who a token lets in.
#[derive(Debug, Clone, Copy, PartialEq, Eq, Structural)]
pub enum TokenVerdict {
    /// The device that the token is bound to.
    Device(u128),
    /// A new device, which the token of this id is then bound to.
    Pending(u128),
    /// A new device, under the bootstrap token.
    Bootstrap,
    /// Nobody.
    Rejected,
}

/// Who a token lets in: the device that it is bound to; a new device, where it
/// is stored and unbound, or is the bootstrap token.
pub open spec fn token_verdict(
    stored: Option<(u128, Option<u128>)>,
    hash: Seq<char>,
    bootstrap: Option<Seq<char>>,
) -> TokenVerdict {
    match stored {
        Some((_, Some(device))) => TokenVerdict::Device(device),
        Some((token, None)) => TokenVerdict::Pending(token),
        None => if bootstrap == Some(hash) {
            TokenVerdict::Bootstrap
        } else {
            TokenVerdict::Rejected
        },
    }
}

/// Judges a token by what is stored under its hash: the id of the token and
/// the device that it is bound to.
pub fn judge_token(
    stored: Option<(u128, Option<u128>)>,
    hash: &str,
    bootstrap: Option<&str>,
) -> (r: TokenVerdict)
    ensures
        r == token_verdict(
            stored,
            hash@,
            match bootstrap {
                Some(b) => Some(b@),
                None => None,
            },
        ),
{
    match stored {
        Some((token, bound)) => match bound {
            Some(device) => TokenVerdict::Device(device),
            None => TokenVerdict::Pending(token),
        },
        None => match bootstrap {
            Some(b) => if same_text(b, hash) {
                TokenVerdict::Bootstrap
            } else {
                TokenVerdict::Rejected
            },
            None => TokenVerdict::Rejected,
        },
    }
}

/// A token that is neither stored nor the bootstrap token lets nobody in, and
/// no other is rejected.
pub proof fn rejected_iff_unknown(
    stored: Option<(u128, Option<u128>)>,
    hash: Seq<char>,
    bootstrap: Option<Seq<char>>,
)
    ensures
        token_verdict(stored, hash, bootstrap) == TokenVerdict::Rejected <==> stored is None
            && bootstrap != Some(hash),
{
}

/// The answer to a rejected token.
pub fn token_rejection() -> (r: ControlMessage)
    ensures
        tells_error(r, "invalid_token"@, "Token rejected"@),
{
    error_message("invalid_token", "Token rejected")
}

/// What becomes of a control message that its session's queue was offered.
#[derive(Debug, Clone, Copy, PartialEq, Eq, Structural)]
pub enum SendStep {
    Sent,
    /// The queue is full; wait this many nanoseconds at most for room.
    Wait(u64),
    Failed,
}

/// Decides on a control message by what its session's queue said. A message
/// without a deadline does not wait for room, and none waits past its deadline.
pub fn send_step(queue: QueueResult, deadline: Option<u64>, now: u64) -> (r: SendStep)
    ensures
        r == match queue {
            QueueResult::Sent => SendStep::Sent,
            QueueResult::Closed => SendStep::Failed,
            QueueResult::Full => match deadline {
                Some(end) => if now < end {
                    SendStep::Wait((end - now) as u64)
                } else {
                    SendStep::Failed
                },
                None => SendStep::Failed,
            },
        },
        r == step_of(queue, deadline, now),
{
    match queue {
        QueueResult::Sent => SendStep::Sent,
        QueueResult::Closed => SendStep::Failed,
        QueueResult::Full => match deadline {
            Some(end) => {
                if now < end {
                    SendStep::Wait(end - now)
                } else {
                    SendStep::Failed
                }
            },
            None => SendStep::Failed,
        },
    }
}

/// The answer to a registration: the device's id and tunnels, the bandwidth
/// cap, and its settings where they could be read.
pub fn greeting(
    device_id: u128,
    tunnels: Vec<TunnelSpec>,
    mbps: u64,
    settings: Option<AgentSettings>,
) -> (r: Vec<ControlMessage>)
    ensures
        r@.len() == if settings is Some {
            3int
        } else {
            2
        },
        r@[0] matches ControlMessage::Registered { device_id: d, tunnels: t } && d@ == uuid_text(
            device_id,
        ) && t == tunnels,
        r@[1] == (ControlMessage::BandwidthConfig { mbps }),
        settings matches Some(s) ==> r@[2] == (ControlMessage::SettingsSync { settings: s }),
        greets(r@, device_id, tunnels, mbps, settings),
{
    let mut out: Vec<ControlMessage> = Vec::new();
    out.push(ControlMessage::Registered { device_id: id_text(device_id), tunnels });
    out.push(ControlMessage::BandwidthConfig { mbps });
    match settings {
        Some(settings) => {
            out.push(ControlMessage::SettingsSync { settings });
        },
        None => {},
    }
    out
}

/// What an agent found out about a local service.
#[derive(Debug, PartialEq, Eq)]
pub struct ProbeAnswer {
    pub probe_id: String,
    pub ok: bool,
    pub message: Option<String>,
}

/// What a control message makes of the data plane.
pub open spec fn after_control(
    v: PlaneView,
    device_id: u128,
    connection_id: u128,
    m: ControlMessage,
    now: u64,
) -> PlaneView {
    match m {
        ControlMessage::Heartbeat { latency_ms, .. } => PlaneView {
            heartbeats: v.heartbeats.insert(
                device_id,
                HeartbeatEntry {
                    connection_id,
                    latency_ms: signed_latency(latency_ms),
                    last_seen: now,
                },
            ),
            ..v
        },
        ControlMessage::StreamClose { stream_id, .. } => match unsigned_value(
            stream_id@,
            u128::MAX as nat,
        ) {
            Some(id) => drop_udp(drop_streams(v, set![id as u128]), set![id as u128]),
            None => v,
        },
        _ => v,
    }
}

/// Takes a message of a registered agent: a heartbeat is noted, a stream that
/// the agent closed is removed, and the answer to a probe is handed on.
pub fn control_message(
    plane: &mut DataPlane,
    device_id: u128,
    connection_id: u128,
    message: ControlMessage,
    now: u64,
) -> (r: Option<ProbeAnswer>)
    requires
        old(plane).wf(),
    ensures
        final(plane).wf(),
        final(plane)@ == after_control(old(plane)@, device_id, connection_id, message, now),
        match message {
            ControlMessage::ProbeResult { probe_id, ok, message: text } => r == Some(
                ProbeAnswer { probe_id, ok, message: text },
            ),
            _ => r is None,
        },
{
    match message {
        ControlMessage::Heartbeat { latency_ms, .. } => {
            plane.record_heartbeat(device_id, connection_id, latency_ms, now);
            None
        },
        ControlMessage::StreamClose { stream_id, .. } => {
            match parse_u128(stream_id.as_str()) {
                Some(id) => {
                    plane.close_stream(id);
                },
                None => {},
            }
            None
        },
        ControlMessage::ProbeResult { probe_id, ok, message } => Some(
            ProbeAnswer { probe_id, ok, message },
        ),
        _ => None,
    }
}

/// Takes the first message on a data socket: the hash of the token that it
/// binds under, or nothing where it may not come first.
pub fn open_data(message: &ControlMessage) -> (r: Option<String>)
    ensures
        match *message {
            ControlMessage::DataBind { token } => r matches Some(h) && h@ == token_hash(token@),
            _ => r is None,
        },
        data_hash(*message) == match r {
            Some(h) => Some(h@),
            None => None,
        },
{
    match message {
        ControlMessage::DataBind { token } => Some(hash_token(token.as_str())),
        _ => None,
    }
}

/// The answer to a text on a bound data socket: a heartbeat is echoed, so that
/// both directions see traffic while the tunnel is idle.
pub fn echo(message: &ControlMessage) -> (r: Option<ControlMessage>)
    ensures
        match *message {
            ControlMessage::Heartbeat { .. } => r == Some(
                ControlMessage::Heartbeat { version: PROTOCOL_VERSION, latency_ms: 0 },
            ),
            _ => r is None,
        },
        r == echo_of(*message),
{
    match message {
        ControlMessage::Heartbeat { .. } => Some(heartbeat(0)),
        _ => None,
    }
}

/// Limits warnings about dropped echoes.
#[derive(Debug, Clone, Copy, PartialEq, Eq, Structural)]
pub struct EchoWarning {
    pub last: u64,
}

impl EchoWarning {
    /// Starts counting now.
    pub fn new(now: u64) -> (r: Self)
        ensures
            r.last == now,
    {
        EchoWarning { last: now }
    }

    /// An echo was dropped; says whether a warning is due.
    pub fn dropped(&mut self, now: u64) -> (r: bool)
        ensures
            r == (now - old(self).last >= ECHO_DROP_WARN_SECS * SECOND),
            r == warning_due(old(self).last, now),
            final(self).last == if r {
                now
            } else {
                old(self).last
            },
    {
        if self.last <= now && now - self.last >= ECHO_DROP_WARN_SECS * SECOND {
            self.last = now;
            return true;
        }
        false
    }
}

/// Finds where the frame of a data socket goes: its stream, what carries it,
/// and its payload. Nothing where it is no stream frame.
pub fn frame_target<'a>(plane: &DataPlane, bytes: &'a [u8]) -> (r: Option<
    (u128, RouteTarget, &'a [u8]),
>)
    ensures
        r is None <==> bytes@.len() < 16 || bytes@.len() > MAX_FRAME_BYTES,
        r matches Some((id, target, data)) ==> bytes@ == stream_frame(id, data@) && target
            == target_of(plane@, id),
{
    proof {
        if bytes@.len() >= 16 {
            stream_frame_canonical(bytes@);
        }
    }
    match decode_stream_data(bytes) {
        Ok((id, data)) => Some((id, plane.route_target(id), data)),
        Err(_) => None,
    }
}

/// The reason that an outcome closes a stream for.
pub open spec fn outcome_reason(o: RouteOutcome) -> Option<(u128, CloseReason)> {
    match o {
        RouteOutcome::Delivered => None,
        RouteOutcome::Dropped => None,
        RouteOutcome::StreamSendTimeout(id) => Some((id, CloseReason::StreamSendTimeout)),
        RouteOutcome::StreamChannelClosed(id) => Some((id, CloseReason::StreamChannelClosed)),
        RouteOutcome::UdpSessionGone(id) => Some((id, CloseReason::UdpSessionClosed)),
    }
}

/// What the agent is told of a frame's outcome: that its stream is closed, or
/// nothing.
pub fn route_close(outcome: RouteOutcome) -> (r: Option<ControlMessage>)
    ensures
        match outcome_reason(outcome) {
            None => r is None,
            Some((id, why)) => r matches Some(m) && closes_stream(m, id, Some(reason_text(why))),
        },
{
    match outcome {
        RouteOutcome::Delivered => None,
        RouteOutcome::Dropped => None,
        RouteOutcome::StreamSendTimeout(id) => Some(
            stream_close(id, Some(CloseReason::StreamSendTimeout)),
        ),
        RouteOutcome::StreamChannelClosed(id) => Some(
            stream_close(id, Some(CloseReason::StreamChannelClosed)),
        ),
        RouteOutcome::UdpSessionGone(id) => Some(
            stream_close(id, Some(CloseReason::UdpSessionClosed)),
        ),
    }
}

/// The messages that close streams for one reason.
pub fn stream_closes(ids: &Vec<u128>, reason: CloseReason) -> (r: Vec<ControlMessage>)
    ensures
        r@.len() == ids@.len(),
        forall|i: int|
            0 <= i < r@.len() ==> closes_stream(#[trigger] r@[i], ids@[i], Some(reason_text(reason))),
{
    let mut out: Vec<ControlMessage> = Vec::new();
    let mut i: usize = 0;
    while i < ids.len()
        invariant
            i <= ids@.len(),
            out@.len() == i,
            forall|j: int|
                0 <= j < i ==> closes_stream(#[trigger] out@[j], ids@[j], Some(reason_text(reason))),
        decreases ids@.len() - i,
    {
        out.push(stream_close(ids[i], Some(reason)));
        i += 1;
    }
    out
}

/// A frame has left a data channel's queue: its stream may queue one more.
/// Says which stream, if it is open.
pub fn frame_left(plane: &mut DataPlane, bytes: &[u8]) -> (r: Option<u128>)
    requires
        old(plane).wf(),
    ensures
        final(plane).wf(),
        r matches Some(id) ==> old(plane)@.streams.contains_key(id) && final(plane)@ == slot_freed(
            old(plane)@,
            id,
        ) && exists|data: Seq<u8>| bytes@ == #[trigger] stream_frame(id, data),
        r is None ==> final(plane)@ == old(plane)@ && forall|id: u128, data: Seq<u8>|
            bytes@ == #[trigger] stream_frame(id, data) && data.len() + 16 <= MAX_FRAME_BYTES
                ==> !old(plane)@.streams.contains_key(id),
{
    match decode_stream_data(bytes) {
        Ok((id, data)) => {
            proof {
                stream_frame_canonical(bytes@);
                assert forall|other: u128, rest: Seq<u8>|
                    bytes@ == #[trigger] stream_frame(other, rest) implies other == id by {
                    stream_frames_distinct(other, rest, id, data@);
                }
            }
            if plane.release_stream_slot(id) {
                Some(id)
            } else {
                None
            }
        },
        Err(_) => {
            proof {
                assert forall|id: u128, data: Seq<u8>|
                    bytes@ == #[trigger] stream_frame(id, data) && data.len() + 16
                        <= MAX_FRAME_BYTES implies !plane@.streams.contains_key(id) by {
                    lemma_be_bytes(id as nat, 16);
                }
            }
            None
        },
    }
}

/// Seconds between checks for idle UDP sessions.
pub fn udp_cleanup_secs(idle_secs: u64) -> (r: u64)
    ensures
        r == if idle_secs > 60 {
            60
        } else if idle_secs < 10 {
            10
        } else {
            idle_secs
        },
        r == cleanup_secs(idle_secs),
{
    if idle_secs > 60 {
        60
    } else if idle_secs < 10 {
        10
    } else {
        idle_secs
    }
}

/// The number for a client's address and port.
pub open spec fn peer_number(address: u32, port: u16) -> int {
    address * 65536 + port
}

/// The number that stands for a client in the data plane.
pub fn peer_key(address: u32, port: u16) -> (r: u64)
    ensures
        r == peer_number(address, port),
{
    address as u64 * 65536 + port as u64
}

/// Two clients never share a number.
pub proof fn peer_numbers_distinct(a: u32, p: u16, b: u32, q: u16)
    requires
        peer_number(a, p) == peer_number(b, q),
    ensures
        a == b,
        p == q,
{
}

/// What is to be done with a control message.
pub open spec fn step_of(queue: QueueResult, deadline: Option<u64>, now: u64) -> SendStep {
    match (queue, deadline) {
        (QueueResult::Sent, _) => SendStep::Sent,
        (QueueResult::Full, Some(end)) => if now < end {
            SendStep::Wait((end - now) as u64)
        } else {
            SendStep::Failed
        },
        _ => SendStep::Failed,
    }
}

/// Whether a warning of dropped echoes is due.
pub open spec fn warning_due(last: u64, now: u64) -> bool {
    now - last >= ECHO_DROP_WARN_SECS * SECOND
}

/// Seconds between checks for idle UDP sessions.
pub open spec fn cleanup_secs(idle_secs: u64) -> u64 {
    if idle_secs > 60 {
        60
    } else if idle_secs < 10 {
        10
    } else {
        idle_secs
    }
}

/// A message that the queue took is sent, one for a closed queue has failed,
/// and one for a full queue waits up to its deadline and no longer; without a
/// deadline it does not wait at all.
pub proof fn sending_never_outlasts_deadline(
    queue: QueueResult,
    end: u64,
    now: u64,
    later: u64,
)
    ensures
        step_of(queue, Some(end), now) == SendStep::Sent <==> queue == QueueResult::Sent,
        step_of(queue, None, now) == SendStep::Sent <==> queue == QueueResult::Sent,
        !(step_of(queue, None, now) is Wait),
        step_of(QueueResult::Closed, Some(end), now) == SendStep::Failed,
        step_of(queue, Some(end), now) matches SendStep::Wait(w) ==> w > 0 && now + w == end,
        step_of(QueueResult::Full, Some(end), now) is Wait <==> now < end,
        end <= later ==> !(step_of(queue, Some(end), later) is Wait),
{
}

/// Warnings of dropped echoes are at least ten seconds apart, and one is due
/// once so much time has passed.
pub proof fn warnings_ten_seconds_apart(last: u64, now: u64)
    requires
        last <= now,
    ensures
        warning_due(last, now) <==> now - last >= 10_000_000_000,
{
}

/// Idle sessions are looked for often enough, but not all the time: at most
/// every ten seconds, at least every minute, and as often as they expire in
/// between.
pub proof fn cleanup_keeps_up(idle_secs: u64)
    ensures
        10 <= cleanup_secs(idle_secs) <= 60,
        10 <= idle_secs <= 60 ==> cleanup_secs(idle_secs) == idle_secs,
        idle_secs >= 10 ==> cleanup_secs(idle_secs) <= idle_secs,
        idle_secs >= 60 ==> cleanup_secs(idle_secs) == 60,
{
}

/// A token that is bound to a device speaks for that device, whatever the
/// bootstrap token is; one that is known but not bound is bound to a new one.
pub proof fn bound_token_names_its_device(
    token: u128,
    device: u128,
    hash: Seq<char>,
    bootstrap: Option<Seq<char>>,
)
    ensures
        token_verdict(Some((token, Some(device))), hash, bootstrap) == TokenVerdict::Device(
            device,
        ),
        token_verdict(Some((token, None)), hash, bootstrap) == TokenVerdict::Pending(token),
        token_verdict(None, hash, Some(hash)) == TokenVerdict::Bootstrap,
        token_verdict(None, hash, None) == TokenVerdict::Rejected,
{
}

/// The agent is told of a closed stream exactly where a frame closed one, and
/// under the id of that stream; it is never told of a frame that was taken or
/// of a datagram that was dropped.
pub proof fn agent_told_of_closed_streams(v: PlaneView, id: u128, sent: QueueResult, now: u64)
    ensures
        ({
            let target = target_of(v, id);
            let w = after_route(v, id, target, sent, now);
            let told = outcome_reason(outcome_of(id, target, sent));
            &&& (told is Some <==> target_of(v, id) != RouteTarget::Nothing && sent
                != QueueResult::Sent && !(target == RouteTarget::Udp && sent == QueueResult::Full))
            &&& told matches Some((told_id, _)) ==> told_id == id
            &&& told is Some ==> !(w.streams.contains_key(id) && target == RouteTarget::Stream)
                && !(w.udp.contains_key(id) && target == RouteTarget::Udp)
            &&& told is None ==> w.streams == v.streams && w.udp.dom() == v.udp.dom()
            &&& sent == QueueResult::Full && target == RouteTarget::Stream ==> told == Some(
                (id, CloseReason::StreamSendTimeout),
            )
            &&& sent == QueueResult::Closed && target == RouteTarget::Stream ==> told == Some(
                (id, CloseReason::StreamChannelClosed),
            )
            &&& sent == QueueResult::Closed && target == RouteTarget::Udp ==> told == Some(
                (id, CloseReason::UdpSessionClosed),
            )
        }),
{
    let target = target_of(v, id);
    let w = after_route(v, id, target, sent, now);
    if outcome_reason(outcome_of(id, target, sent)) is None {
        assert(w.udp.dom() =~= v.udp.dom());
    }
}

/// When an agent says that it closed a stream, that stream is gone at the
/// server, be it of bytes or of datagrams, and nothing else is.
pub proof fn agent_closes_its_stream(
    v: PlaneView,
    device_id: u128,
    connection_id: u128,
    m: ControlMessage,
    now: u64,
    id: u128,
    reason: Option<Seq<char>>,
    other: u128,
)
    requires
        closes_stream(m, id, reason),
        other != id,
    ensures
        ({
            let w = after_control(v, device_id, connection_id, m, now);
            &&& target_of(w, id) == RouteTarget::Nothing
            &&& target_of(w, other) == target_of(v, other)
            &&& w.streams.get(other) == v.streams.get(other)
            &&& w.udp.get(other) == v.udp.get(other)
            &&& w.sessions == v.sessions && w.channels == v.channels && w.heartbeats
                == v.heartbeats
        }),
{
    number_round_trip(id as nat, u128::MAX as nat);
}

/// A heartbeat is noted under the device and the connection that it came from,
/// and changes nothing else; other messages leave the plane as it is.
pub proof fn heartbeat_is_noted(
    v: PlaneView,
    device_id: u128,
    connection_id: u128,
    version: u16,
    latency_ms: u32,
    now: u64,
    m: ControlMessage,
)
    requires
        !(m is Heartbeat),
        !(m is StreamClose),
    ensures
        ({
            let w = after_control(
                v,
                device_id,
                connection_id,
                (ControlMessage::Heartbeat { version, latency_ms }),
                now,
            );
            &&& w == heartbeat_noted(v, device_id, connection_id, latency_ms, now)
            &&& w.heartbeats.contains_key(device_id)
            &&& w.heartbeats[device_id].connection_id == connection_id
            &&& w.heartbeats[device_id].last_seen == now
            &&& w.streams == v.streams && w.udp == v.udp && w.sessions == v.sessions
        }),
        after_control(v, device_id, connection_id, m, now) == v,
{
}

/// What the first message of a control socket is taken as.
pub open spec fn taken_as(m: ControlMessage, r: Opening) -> bool {
    match m {
        ControlMessage::Register { token, device_name, .. } => r matches Opening::Register {
            token_hash: h,
            device_name: n,
        } && h@ == token_hash(token@) && n == device_name,
        ControlMessage::Enroll { code, device_name } => r == (Opening::Enroll {
            code,
            device_name,
        }),
        _ => r == Opening::Refused,
    }
}

/// The hash under which a data socket is bound by its first message.
pub open spec fn data_hash(m: ControlMessage) -> Option<Seq<char>> {
    match m {
        ControlMessage::DataBind { token } => Some(token_hash(token@)),
        _ => None,
    }
}

/// What a text on a data socket is answered.
pub open spec fn echo_of(m: ControlMessage) -> Option<ControlMessage> {
    match m {
        ControlMessage::Heartbeat { .. } => Some(
            ControlMessage::Heartbeat { version: PROTOCOL_VERSION, latency_ms: 0 },
        ),
        _ => None,
    }
}

/// Whether messages greet an agent that registered.
pub open spec fn greets(
    r: Seq<ControlMessage>,
    device_id: u128,
    tunnels: Vec<TunnelSpec>,
    mbps: u64,
    settings: Option<AgentSettings>,
) -> bool {
    &&& r.len() == if settings is Some {
        3int
    } else {
        2
    }
    &&& r[0] matches ControlMessage::Registered { device_id: d, tunnels: t } && d@ == uuid_text(
        device_id,
    ) && t == tunnels
    &&& r[1] == (ControlMessage::BandwidthConfig { mbps })
    &&& settings matches Some(s) ==> r[2] == (ControlMessage::SettingsSync { settings: s })
}

/// An agent that registers is looked up by the hash of the token that it sent,
/// and so are its data sockets; one that enrolls, by the code that it sent. Both
/// go by the name that they gave.
pub proof fn agent_is_taken_at_its_word(
    m: ControlMessage,
    secret: Seq<char>,
    name: Seq<char>,
    r: Opening,
)
    requires
        taken_as(m, r),
    ensures
        registers(m, secret, name) ==> (r matches Opening::Register { token_hash: h, device_name: n }
            && h@ == token_hash(secret) && n@ == name),
        asks_enrollment(m, secret, name) ==> (r matches Opening::Enroll { code, device_name: n }
            && code@ == secret && n@ == name),
        binds_data(m, secret) ==> r == Opening::Refused && data_hash(m) == Some(
            token_hash(secret),
        ),
        registers(m, secret, name) || asks_enrollment(m, secret, name) ==> data_hash(m) is None,
        r is Refused <==> !(m is Register) && !(m is Enroll),
        data_hash(m) is Some <==> m is DataBind,
{
}

/// Heartbeats on a data socket are answered by heartbeats, nothing else is.
pub proof fn only_heartbeats_are_echoed(m: ControlMessage)
    ensures
        echo_of(m) is Some <==> m is Heartbeat,
        echo_of(m) matches Some(e) ==> e is Heartbeat && e->latency_ms == 0 && echo_of(e)
            == echo_of(m),
{
}

/// An agent that registered is told its tunnels first, then the cap; settings
/// follow exactly where there are some.
pub proof fn greeting_tells_tunnels_first(
    r: Seq<ControlMessage>,
    device_id: u128,
    tunnels: Vec<TunnelSpec>,
    mbps: u64,
    settings: Option<AgentSettings>,
)
    requires
        greets(r, device_id, tunnels, mbps, settings),
    ensures
        r.len() >= 2 && r[0] is Registered && r[1] is BandwidthConfig,
        r[0]->Registered_tunnels == tunnels,
        r[0]->Registered_device_id@ == uuid_text(device_id),
        r.len() == 3 <==> settings is Some,
        r.len() == 3 ==> r[2] is SettingsSync && Some(r[2]->SettingsSync_settings) == settings,
        r[1] == (ControlMessage::BandwidthConfig { mbps }),
{
}

/// A client's number holds its port in the lowest sixteen bits, and its address
/// in those above.
pub proof fn peer_number_holds_both(address: u32, port: u16)
    ensures
        peer_number(address, port) % 65536 == port,
        peer_number(address, port) / 65536 == address,
{
}

} // verus!
