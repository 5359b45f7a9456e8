//! The agent's data channels, its enrollment, the bridges to local services,
//! and what follows when a session ends.

use vstd::prelude::*;

use crate::agent_session::{token_updates, updates_for_refusal, updates_for_token, RunOutcome};
use crate::agent_streams::{
    buffer_outcome, buffered, opened, place_freed, route_of, waiting, AgentRoute, BufferOutcome,
    StreamTable, TableView, PENDING_STREAM_BYTES, PENDING_STREAM_HARD_BYTES,
};
use crate::key_values::pair_views;
use crate::messages::{closes_stream, reason_text, stream_close, CloseReason};
use crate::number::{dec, decimal};
use crate::protocol::{
    be_value, decode_stream_data, stream_frame, stream_frame_round_trip, ControlMessage,
    TunnelKind, TunnelSpec, MAX_FRAME_BYTES,
};
use crate::traffic::{counted, counters_of, wrapped, ChannelCounters, TrafficStats};

verus! {

/// The attempts of a connection that is retried.
#[derive(Debug, Clone, Copy, PartialEq, Eq, Structural)]
pub struct Retry {
    pub attempt: u32,
}

impl Retry {
    /// No attempt has failed yet.
    pub fn new() -> (r: Self)
        ensures
            r.attempt == 0,
    {
        Retry { attempt: 0 }
    }

    /// An attempt failed or its connection was lost; says which attempt the
    /// wait is for.
    pub fn failed(&mut self) -> (r: u32)
        ensures
            r == old(self).attempt,
            final(self).attempt == if r == u32::MAX {
                r
            } else {
                (r + 1) as u32
            },
            final(self).attempt == after_failure(r),
    {
        let attempt: u32 = self.attempt;
        self.attempt = attempt.saturating_add(1);
        attempt
    }

    /// The connection works: the next failure is the first again.
    pub fn succeeded(&mut self)
        ensures
            final(self).attempt == 0,
    {
        self.attempt = 0;
    }
}

/// The channel that a message binds a data socket to. Other messages are
/// passed over.
pub fn bound_channel(message: &ControlMessage) -> (r: Option<u16>)
    ensures
        r == match *message {
            ControlMessage::DataBound { channel_id } => Some(channel_id),
            _ => None,
        },
        r == channel_of(*message),
{
    match message {
        ControlMessage::DataBound { channel_id } => Some(*channel_id),
        _ => None,
    }
}

/// The stream and payload of a frame, if it is one.
pub open spec fn frame_parts(bytes: Seq<u8>) -> Option<(u128, Seq<u8>)> {
    if 16 <= bytes.len() <= MAX_FRAME_BYTES {
        Some((be_value(bytes.take(16)) as u128, bytes.skip(16)))
    } else {
        None
    }
}

/// A frame leaves a data channel's queue: its stream may queue one more. Says
/// which stream is open and may go on, and the payload bytes to count once the
/// frame is sent.
pub fn frame_leaves(table: &mut StreamTable, bytes: &[u8]) -> (r: (Option<u128>, usize))
    ensures
        match frame_parts(bytes@) {
            None => r == (None::<u128>, 0usize) && final(table)@ == old(table)@,
            Some((id, data)) => r.1 == data.len() && (if old(table)@.streams.contains_key(id) {
                r.0 == Some(id) && final(table)@ == place_freed(old(table)@, id)
            } else {
                r.0 is None && final(table)@ == old(table)@
            }),
        },
{
    match decode_stream_data(bytes) {
        Ok((id, data)) => {
            if table.release_stream_slot(id) {
                (Some(id), data.len())
            } else {
                (None, data.len())
            }
        },
        Err(_) => (None, 0),
    }
}

/// Counts the payload of a frame that was sent on a channel; a frame without
/// payload leaves the counters alone.
pub fn frame_sent(traffic: &mut TrafficStats, channel_id: u16, payload: usize)
    ensures
        final(traffic)@ == if payload == 0 {
            old(traffic)@
        } else {
            old(traffic)@.insert(
                channel_id,
                (ChannelCounters {
                    up_bytes: wrapped(
                        counters_of(old(traffic)@, channel_id).up_bytes,
                        payload as nat,
                    ),
                    ..counters_of(old(traffic)@, channel_id)
                }),
            )
        },
        payload > 0 ==> final(traffic)@ == counted(old(traffic)@, channel_id, payload as nat, 0),
{
    if payload > 0 {
        traffic.count_up(channel_id, payload);
    }
}

/// What becomes of a frame that arrived.
#[derive(Debug, Clone, Copy, PartialEq, Eq, Structural)]
pub enum Arrival {
    /// It is no stream frame.
    Ignored,
    /// Its stream is not open; it waits, or is lost.
    Waiting(BufferOutcome),
    /// It goes to a stream of datagrams if there is room.
    Datagram(u128),
    /// It goes to a stream of bytes and waits for room.
    Bytes(u128),
}

/// What becomes of a frame that arrived.
pub open spec fn arrival_of(v: TableView, bytes: Seq<u8>, now: u64) -> Arrival {
    match frame_parts(bytes) {
        None => Arrival::Ignored,
        Some((id, data)) => match route_of(v, id) {
            AgentRoute::Buffer => Arrival::Waiting(
                buffer_outcome(
                    v,
                    id,
                    data,
                    PENDING_STREAM_BYTES,
                    PENDING_STREAM_HARD_BYTES,
                    now,
                ),
            ),
            AgentRoute::Datagram => Arrival::Datagram(id),
            AgentRoute::Bytes => Arrival::Bytes(id),
        },
    }
}

/// Takes a frame that arrived on a channel: its payload is counted, and it is
/// kept where its stream has not opened yet.
pub fn frame_arrived(
    table: &mut StreamTable,
    traffic: &mut TrafficStats,
    channel_id: u16,
    bytes: &[u8],
    now: u64,
) -> (r: Arrival)
    ensures
        r == arrival_of(old(table)@, bytes@, now),
        match frame_parts(bytes@) {
            None => final(table)@ == old(table)@ && final(traffic)@ == old(traffic)@,
            Some((id, data)) => {
                &&& final(traffic)@ == old(traffic)@.insert(
                    channel_id,
                    (ChannelCounters {
                        down_bytes: wrapped(
                            counters_of(old(traffic)@, channel_id).down_bytes,
                            data.len(),
                        ),
                        ..counters_of(old(traffic)@, channel_id)
                    }),
                )
                &&& final(table)@ == if old(table)@.streams.contains_key(id) {
                    old(table)@
                } else {
                    buffered(old(table)@, id, data, PENDING_STREAM_HARD_BYTES, now)
                }
            },
        },
        frame_parts(bytes@) matches Some((_, data)) ==> final(traffic)@ == counted(
            old(traffic)@,
            channel_id,
            0,
            data.len(),
        ),
{
    match decode_stream_data(bytes) {
        Ok((id, data)) => {
            traffic.count_down(channel_id, data.len());
            match table.route(id) {
                AgentRoute::Buffer => Arrival::Waiting(
                    table.buffer_pending_frame(
                        id,
                        data,
                        PENDING_STREAM_BYTES,
                        PENDING_STREAM_HARD_BYTES,
                        now,
                    ),
                ),
                AgentRoute::Datagram => Arrival::Datagram(id),
                AgentRoute::Bytes => Arrival::Bytes(id),
            }
        },
        Err(_) => Arrival::Ignored,
    }
}

/// How the bridge of a stream to its local service ended.
#[derive(Debug, Clone, Copy, PartialEq, Eq, Structural)]
pub enum BridgeEnd {
    ConnectFailed,
    BindFailed,
    /// The local service or the stream ended.
    Ended,
}

/// The reason that the server is told of.
pub open spec fn bridge_reason(end: BridgeEnd) -> Option<CloseReason> {
    match end {
        BridgeEnd::ConnectFailed => Some(CloseReason::LocalConnectFailed),
        BridgeEnd::BindFailed => Some(CloseReason::LocalBindFailed),
        BridgeEnd::Ended => None,
    }
}

/// The bridge of a stream has ended: the stream is dropped, and the server is
/// told.
pub fn bridge_ended(table: &mut StreamTable, id: u128, end: BridgeEnd) -> (r: ControlMessage)
    ensures
        final(table)@ == (TableView { streams: old(table)@.streams.remove(id), ..old(table)@ }),
        closes_stream(
            r,
            id,
            match bridge_reason(end) {
                Some(why) => Some(reason_text(why)),
                None => None,
            },
        ),
{
    table.drop_stream(id);
    match end {
        BridgeEnd::ConnectFailed => stream_close(id, Some(CloseReason::LocalConnectFailed)),
        BridgeEnd::BindFailed => stream_close(id, Some(CloseReason::LocalBindFailed)),
        BridgeEnd::Ended => stream_close(id, None),
    }
}

/// Tells the server that a stream cannot be opened.
pub fn refusal(stream_id: String, reason: String) -> (r: ControlMessage)
    ensures
        r == (ControlMessage::StreamClose { stream_id, reason: Some(reason) }),
{
    ControlMessage::StreamClose { stream_id, reason: Some(reason) }
}

/// Tells the server that a stream was closed because its local queue refused a
/// frame.
pub fn local_close(id: u128, reason: String) -> (r: ControlMessage)
    ensures
        closes_stream(r, id, Some(reason@)),
{
    refusal(decimal(id), reason)
}

/// Where a tunnel's local service listens.
pub fn local_target(spec: &TunnelSpec) -> (r: String)
    ensures
        r@ == spec.local_host@ + ":"@ + dec(spec.local_port as nat),
{
    let mut out = spec.local_host.clone();
    out.append(":");
    out.append(decimal(spec.local_port as u128).as_str());
    out
}

/// How far an attempt to reach a local service came.
#[derive(Debug, PartialEq, Eq)]
pub enum ProbeStep {
    Connected,
    /// The system refused, and says why.
    Refused(String),
    TimedOut,
    /// No local UDP socket could be had, and the system says why.
    BindFailed(String),
}

/// The text for an attempt to reach a local service.
pub open spec fn probe_text(kind: TunnelKind, step: ProbeStep) -> Seq<char> {
    match (kind, step) {
        (TunnelKind::Udp, ProbeStep::Connected) =>
            "udp socket ready; real reachability requires a live client"@,
        (TunnelKind::Udp, ProbeStep::Refused(e)) => "udp local connect failed: "@ + e@,
        (TunnelKind::Udp, ProbeStep::TimedOut) => "udp local connect timed out"@,
        (_, ProbeStep::BindFailed(e)) => "udp bind failed: "@ + e@,
        (_, ProbeStep::Connected) => "local tcp service reachable"@,
        (_, ProbeStep::Refused(e)) => "local tcp connect failed: "@ + e@,
        (_, ProbeStep::TimedOut) => "local tcp connect timed out"@,
    }
}

/// The answer to a probe of a tunnel that is known, or not.
pub fn probe_result(probe_id: String, attempt: Option<(TunnelKind, ProbeStep)>) -> (r:
    ControlMessage)
    ensures
        r matches ControlMessage::ProbeResult { probe_id: p, ok, message: Some(text) } && p
            == probe_id && match attempt {
            None => !ok && text@ == "unknown_tunnel"@,
            Some((kind, step)) => ok == (step is Connected) && text@ == probe_text(kind, step),
        },
        tells_probe(r, probe_id@, attempt),
{
    match attempt {
        None => ControlMessage::ProbeResult {
            probe_id,
            ok: false,
            message: Some("unknown_tunnel".to_owned()),
        },
        Some((kind, step)) => {
            let udp = match kind {
                TunnelKind::Udp => true,
                _ => false,
            };
            let (ok, text) = match step {
                ProbeStep::Connected => if udp {
                    (
                        true,
                        "udp socket ready; real reachability requires a live client".to_owned(),
                    )
                } else {
                    (true, "local tcp service reachable".to_owned())
                },
                ProbeStep::Refused(error) => {
                    let mut text = if udp {
                        "udp local connect failed: ".to_owned()
                    } else {
                        "local tcp connect failed: ".to_owned()
                    };
                    text.append(error.as_str());
                    (false, text)
                },
                ProbeStep::TimedOut => if udp {
                    (false, "udp local connect timed out".to_owned())
                } else {
                    (false, "local tcp connect timed out".to_owned())
                },
                ProbeStep::BindFailed(error) => {
                    let mut text = "udp bind failed: ".to_owned();
                    text.append(error.as_str());
                    (false, text)
                },
            };
            ControlMessage::ProbeResult { probe_id, ok, message: Some(text) }
        },
    }
}

/// What a message means to an agent that waits for its enrollment.
#[derive(Debug, PartialEq, Eq)]
pub enum EnrollReply {
    /// Approved: store the token, then connect with it.
    Approved { device_id: String, updates: Vec<(String, String)> },
    /// Rejected: the code is used up.
    Rejected { notice: String, updates: Vec<(String, String)> },
    /// Nothing; go on waiting.
    Ignored,
}

/// Takes a message while waiting for enrollment.
pub fn enroll_reply(message: ControlMessage) -> (r: EnrollReply)
    ensures
        match message {
            ControlMessage::Enrolled { token, device_id } => r matches EnrollReply::Approved {
                device_id: d,
                updates,
            } && d == device_id && pair_views(updates@) == token_updates(token@),
            ControlMessage::Error { code, message: text } => r matches EnrollReply::Rejected {
                notice,
                updates,
            } && notice@ == "Enrollment "@ + code@ + ": "@ + text@
                + ". A new code will be generated."@ && pair_views(updates@) == seq![
                ("ENROLL_CODE"@, ""@),
            ],
            _ => r == EnrollReply::Ignored,
        },
{
    match message {
        ControlMessage::Enrolled { token, device_id } => EnrollReply::Approved {
            device_id,
            updates: updates_for_token(token),
        },
        ControlMessage::Error { code, message } => {
            let mut notice = "Enrollment ".to_owned();
            notice.append(code.as_str());
            notice.append(": ");
            notice.append(message.as_str());
            notice.append(". A new code will be generated.");
            EnrollReply::Rejected { notice, updates: updates_for_refusal() }
        },
        _ => EnrollReply::Ignored,
    }
}

/// What an agent does when a session has ended.
#[derive(Debug, PartialEq, Eq)]
pub enum NextStep {
    /// Connect again at once.
    Connect,
    /// Replace the process.
    Restart { restart_id: String },
    /// Wait as the given attempt does, then connect again.
    Wait { attempt: u32 },
}

/// What an agent does when a session has ended, without an outcome where it
/// failed.
pub fn after_run(retry: &mut Retry, outcome: Option<RunOutcome>) -> (r: NextStep)
    ensures
        match outcome {
            Some(RunOutcome::ReconnectNow) => r == NextStep::Connect && final(retry).attempt == 0,
            Some(RunOutcome::Restarting { restart_id }) => r == (NextStep::Restart { restart_id })
                && *final(retry) == *old(retry),
            _ => r == (NextStep::Wait { attempt: old(retry).attempt }) && final(retry).attempt
                == if old(retry).attempt == u32::MAX {
                u32::MAX
            } else {
                (old(retry).attempt + 1) as u32
            },
        },
        final(retry).attempt == attempts_after(old(retry).attempt, outcome),
{
    match outcome {
        Some(RunOutcome::ReconnectNow) => {
            retry.succeeded();
            NextStep::Connect
        },
        Some(RunOutcome::Restarting { restart_id }) => NextStep::Restart { restart_id },
        Some(RunOutcome::Disconnected) => NextStep::Wait { attempt: retry.failed() },
        None => NextStep::Wait { attempt: retry.failed() },
    }
}

/// A frame finds its stream by the id it begins with: while the stream is not
/// open it waits, and then it goes to the stream, as a datagram or as bytes
/// according to how the stream was opened.
pub proof fn frame_finds_its_stream(v: TableView, id: u128, data: Seq<u8>, udp: bool, now: u64)
    requires
        data.len() + 16 <= MAX_FRAME_BYTES,
    ensures
        arrival_of(opened(v, id, udp), stream_frame(id, data), now) == if udp {
            Arrival::Datagram(id)
        } else {
            Arrival::Bytes(id)
        },
        !v.streams.contains_key(id) ==> (arrival_of(v, stream_frame(id, data), now)
            matches Arrival::Waiting(outcome) && (outcome == BufferOutcome::Dropped <==> waiting(
            v,
            id,
            now,
        ).total + data.len() > 67_108_864)),
        frame_parts(stream_frame(id, data)) == Some((id, data)),
{
    stream_frame_round_trip(id, data);
}

/// What is too short or too long for a stream frame is none.
pub proof fn other_bytes_are_no_frame(v: TableView, bytes: Seq<u8>, now: u64)
    requires
        bytes.len() < 16 || bytes.len() > 1_048_576,
    ensures
        arrival_of(v, bytes, now) == Arrival::Ignored,
        frame_parts(bytes) is None,
{
}

/// The attempts counted after one more that failed.
pub open spec fn after_failure(attempt: u32) -> u32 {
    if attempt == u32::MAX {
        u32::MAX
    } else {
        (attempt + 1) as u32
    }
}

/// The attempts counted after a connection has ended.
pub open spec fn attempts_after(attempt: u32, outcome: Option<RunOutcome>) -> u32 {
    match outcome {
        Some(RunOutcome::ReconnectNow) => 0,
        Some(RunOutcome::Restarting { .. }) => attempt,
        _ => after_failure(attempt),
    }
}

/// Failed attempts are counted one by one and never start over by themselves; a
/// connection that is to be made anew at once starts the count over.
pub proof fn failures_are_counted(attempt: u32, outcome: Option<RunOutcome>)
    ensures
        attempt < u32::MAX ==> after_failure(attempt) == attempt + 1,
        after_failure(attempt) >= attempt,
        attempts_after(attempt, None) == after_failure(attempt),
        attempts_after(attempt, Some(RunOutcome::ReconnectNow)) == 0,
        outcome != Some(RunOutcome::ReconnectNow) ==> attempts_after(attempt, outcome) >= attempt,
{
}

/// The server is told why a bridge could not be made, and that one ended without
/// a reason. Each has its own word.
pub proof fn failed_bridge_says_why(a: BridgeEnd, b: BridgeEnd)
    ensures
        bridge_reason(a) is None <==> a is Ended,
        bridge_reason(a) == bridge_reason(b) <==> a == b,
        bridge_reason(a) matches Some(why) ==> reason_text(why) == if a is ConnectFailed {
            "local_connect_failed"@
        } else {
            "local_bind_failed"@
        },
{
}

/// The channel that a message binds.
pub open spec fn channel_of(m: ControlMessage) -> Option<u16> {
    match m {
        ControlMessage::DataBound { channel_id } => Some(channel_id),
        _ => None,
    }
}

/// Whether a message tells how a probe went.
pub open spec fn tells_probe(
    m: ControlMessage,
    probe_id: Seq<char>,
    attempt: Option<(TunnelKind, ProbeStep)>,
) -> bool {
    m matches ControlMessage::ProbeResult { probe_id: p, ok, message: Some(text) } && p@ == probe_id
        && match attempt {
        None => !ok && text@ == "unknown_tunnel"@,
        Some((kind, step)) => ok == (step is Connected) && text@ == probe_text(kind, step),
    }
}

/// A socket is bound by the message that says so, to the channel that it names.
pub proof fn bound_to_named_channel(m: ControlMessage, channel_id: u16)
    ensures
        channel_of(ControlMessage::DataBound { channel_id }) == Some(channel_id),
        channel_of(m) is Some <==> m is DataBound,
{
}

/// A probe went well exactly where the local service was reached, and is told
/// under the id of the probe. What the system said is told on.
pub proof fn probe_goes_well_when_connected(
    m: ControlMessage,
    probe_id: Seq<char>,
    kind: TunnelKind,
    step: ProbeStep,
)
    requires
        tells_probe(m, probe_id, Some((kind, step))),
    ensures
        m is ProbeResult && m->ProbeResult_probe_id@ == probe_id,
        m->ProbeResult_ok <==> step is Connected,
        m->ProbeResult_message is Some,
        step matches ProbeStep::Refused(e) ==> exists|lead: Seq<char>|
            m->ProbeResult_message->0@ == #[trigger] (lead + e@),
        !tells_probe(m, probe_id, None) || !m->ProbeResult_ok,
{
}

/// A probe of a tunnel that is not known fails, and says so.
pub proof fn unknown_tunnel_fails_its_probe(m: ControlMessage, probe_id: Seq<char>)
    requires
        tells_probe(m, probe_id, None),
    ensures
        m is ProbeResult && m->ProbeResult_probe_id@ == probe_id && !m->ProbeResult_ok,
        m->ProbeResult_message is Some && m->ProbeResult_message->0@ == "unknown_tunnel"@,
{
}

} // verus!
