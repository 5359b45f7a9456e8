//! In-memory data plane of the server: control sessions, data channels, TCP
//! streams, UDP sessions, and which frame goes where.

use std::collections::HashMap;
use vstd::prelude::*;

use crate::pair_map::{keys_of, keys_where, numbers, PairMap};
use crate::plane_model::{
    add_stream, add_udp, below_limit, best_channel, bound_channels, bound_streams, bound_udp, channel_streams,
    channel_udp, close_channel, connection_udp, consistent, control_ended, drop_channel,
    drop_streams, drop_streams_keeps_consistent, drop_udp, drop_udp_keeps_consistent, eligible,
    empty_plane, has_slot, idle_udp, lemma_drop_streams_none, lemma_drop_streams_step, lemma_drop_udp_none,
    lemma_drop_udp_step, lessened, loads_counted, one_more, peers_of, session_opened, slot_freed, slot_taken,
    stream_on, streams_among, teardown, touch_keeps_consistent, touched, tunnel_streams,
    tunnel_udp, udp_among, udp_on, HeartbeatEntry, PlaneView, StreamEntry, UdpSession,
    HEARTBEAT_STALE_SECS, SECOND, STREAM_CHANNEL_QUOTA,
};

verus! {

broadcast use vstd::std_specs::hash::group_hash_axioms;

/// Removes a session entry only when it still belongs to `connection_id`, so a
/// stale control loop can never delete the session of a newer connection.
pub fn remove_session_if_owned(
    sessions: &mut HashMap<u128, u128>,
    device_id: u128,
    connection_id: u128,
) -> (removed: bool)
    ensures
        removed == old(sessions)@.contains_pair(device_id, connection_id),
        final(sessions)@ == if removed {
            old(sessions)@.remove(device_id)
        } else {
            old(sessions)@
        },
        final(sessions)@ == without_owned(old(sessions)@, device_id, connection_id),
{
    match sessions.get(&device_id) {
        Some(owner) => {
            if *owner == connection_id {
                sessions.remove(&device_id);
                true
            } else {
                false
            }
        },
        None => false,
    }
}

/// Removes a heartbeat entry only when it still belongs to `connection_id`.
pub fn remove_heartbeat_if_owned(
    heartbeats: &mut HashMap<u128, HeartbeatEntry>,
    device_id: u128,
    connection_id: u128,
) -> (removed: bool)
    ensures
        removed == (old(heartbeats)@.contains_key(device_id)
            && old(heartbeats)@[device_id].connection_id == connection_id),
        final(heartbeats)@ == if removed {
            old(heartbeats)@.remove(device_id)
        } else {
            old(heartbeats)@
        },
        final(heartbeats)@ == without_own_beat(old(heartbeats)@, device_id, connection_id),
{
    match heartbeats.get(&device_id) {
        Some(entry) => {
            if entry.connection_id == connection_id {
                heartbeats.remove(&device_id);
                true
            } else {
                false
            }
        },
        None => false,
    }
}

/// What a torn-down control connection left to tell the agent and to stop.
#[derive(Debug, PartialEq, Eq)]
pub struct Teardown {
    /// Streams that were closed.
    pub streams: Vec<u128>,
    /// UDP sessions that were closed with their channel.
    pub udp: Vec<u128>,
    /// Data channels that were removed.
    pub channels: Vec<u16>,
}

/// Whether a stream may put one more frame into its channel's queue.
#[derive(Debug, Clone, Copy, PartialEq, Eq, Structural)]
pub enum SlotOutcome {
    /// A place was reserved.
    Acquired,
    /// The stream is at its quota; try again when one of its frames has left.
    Wait,
    /// The stream is gone.
    Gone,
}

/// Appends ids.
fn extend_ids(ids: &mut Vec<u128>, more: &Vec<u128>)
    ensures
        final(ids)@ == old(ids)@ + more@,
{
    let mut i: usize = 0;
    while i < more.len()
        invariant
            i <= more.len(),
            ids@ == old(ids)@ + more@.take(i as int),
        decreases more.len() - i,
    {
        ids.push(more[i]);
        i += 1;
    }
    assert(more@.take(more@.len() as int) =~= more@);
}

/// A set that holds every number from 1 to `n` has at least `n` of them.
proof fn lemma_first_numbers(s: Set<u64>, n: nat)
    requires
        s.finite(),
        n <= u16::MAX,
        forall|d: u16| 1 <= d <= n ==> #[trigger] s.contains(d as u64),
    ensures
        s.len() >= n,
    decreases n,
{
    if n > 0 {
        let top = n as u16;
        assert(s.contains(top as u64));
        let rest = s.remove(top as u64);
        assert forall|d: u16| 1 <= d <= n - 1 implies #[trigger] rest.contains(d as u64) by {
            assert(s.contains(d as u64));
        }
        lemma_first_numbers(rest, (n - 1) as nat);
    }
}

/// A latency as the database stores it: in two's complement.
pub open spec fn signed_latency(latency_ms: u32) -> i32 {
    if latency_ms <= i32::MAX {
        latency_ms as i32
    } else {
        (latency_ms - 4_294_967_296) as i32
    }
}

/// What the id of a data frame names.
#[derive(Debug, Clone, Copy, PartialEq, Eq, Structural)]
pub enum RouteTarget {
    Udp,
    Stream,
    Nothing,
}

/// What a bounded queue said to a frame.
#[derive(Debug, Clone, Copy, PartialEq, Eq, Structural)]
pub enum QueueResult {
    Sent,
    /// The queue was full, for a stream past the send timeout.
    Full,
    Closed,
}

/// Result of routing one data frame to its stream or UDP session.
#[derive(Debug, Clone, Copy, PartialEq, Eq, Structural)]
pub enum RouteOutcome {
    Delivered,
    /// UDP queue full; the datagram is dropped.
    Dropped,
    /// Stream queue stayed full past the send timeout; the stream is closed.
    StreamSendTimeout(u128),
    /// Stream queue closed; the stream is closed.
    StreamChannelClosed(u128),
    /// UDP session queue closed; the session is gone.
    UdpSessionGone(u128),
}

/// What becomes of a datagram from a public client.
#[derive(Debug, Clone, Copy, PartialEq, Eq, Structural)]
pub enum DatagramVerdict {
    /// It belongs to this session.
    Session(u128),
    /// The tunnel has as many clients as it may have.
    Full,
    /// The device has no control session.
    Offline,
    /// The device has no data channel.
    NoChannel,
    /// A session is to be opened.
    Open { connection_id: u128, data_channel: u16 },
}

/// What the id of a data frame names. A UDP session goes before a stream.
pub open spec fn target_of(v: PlaneView, id: u128) -> RouteTarget {
    if v.udp.contains_key(id) {
        RouteTarget::Udp
    } else if v.streams.contains_key(id) {
        RouteTarget::Stream
    } else {
        RouteTarget::Nothing
    }
}

/// What routing a frame comes to.
pub open spec fn outcome_of(id: u128, target: RouteTarget, sent: QueueResult) -> RouteOutcome {
    match (target, sent) {
        (RouteTarget::Nothing, _) => RouteOutcome::Delivered,
        (_, QueueResult::Sent) => RouteOutcome::Delivered,
        (RouteTarget::Udp, QueueResult::Full) => RouteOutcome::Dropped,
        (RouteTarget::Udp, QueueResult::Closed) => RouteOutcome::UdpSessionGone(id),
        (RouteTarget::Stream, QueueResult::Full) => RouteOutcome::StreamSendTimeout(id),
        (RouteTarget::Stream, QueueResult::Closed) => RouteOutcome::StreamChannelClosed(id),
    }
}

/// What routing a frame leaves behind.
pub open spec fn after_route(
    v: PlaneView,
    id: u128,
    target: RouteTarget,
    sent: QueueResult,
    now: u64,
) -> PlaneView {
    match (target, sent) {
        (RouteTarget::Udp, QueueResult::Sent) => touched(v, id, now),
        (RouteTarget::Udp, QueueResult::Closed) => drop_udp(v, set![id]),
        (RouteTarget::Stream, QueueResult::Full) => drop_streams(v, set![id]),
        (RouteTarget::Stream, QueueResult::Closed) => drop_streams(v, set![id]),
        _ => v,
    }
}

/// Routing a frame keeps the plane consistent, whatever the queue said.
pub proof fn route_keeps_consistent(
    v: PlaneView,
    id: u128,
    target: RouteTarget,
    sent: QueueResult,
    now: u64,
)
    requires
        consistent(v),
    ensures
        consistent(after_route(v, id, target, sent, now)),
{
    touch_keeps_consistent(v, id, now);
    drop_udp_keeps_consistent(v, set![id]);
    drop_streams_keeps_consistent(v, set![id]);
}

/// A datagram that its session's queue cannot take is lost and nothing else:
/// the plane stays as it was. A stream whose queue cannot take a frame is
/// closed, and no other stream is.
pub proof fn full_queue_effect(v: PlaneView, id: u128, other: u128, now: u64)
    requires
        other != id,
    ensures
        after_route(v, id, RouteTarget::Udp, QueueResult::Full, now) == v,
        !after_route(v, id, RouteTarget::Stream, QueueResult::Full, now).streams.contains_key(id),
        after_route(v, id, RouteTarget::Stream, QueueResult::Full, now).streams.get(other)
            == v.streams.get(other),
        after_route(v, id, RouteTarget::Stream, QueueResult::Full, now).udp == v.udp,
{
}

/// The data channel that carries a UDP session, while it is bound, and the
/// session's control connection.
pub open spec fn carrier_of(v: PlaneView, id: u128, device: u128) -> Option<(u16, u128)> {
    if v.udp.contains_key(id) && v.channels.contains_key(
        (device, v.udp[id].data_channel as u64),
    ) {
        Some((v.udp[id].data_channel, v.udp[id].connection_id))
    } else {
        None
    }
}

/// Whether a heartbeat is recent enough to count.
pub open spec fn is_fresh(e: HeartbeatEntry, now: u64) -> bool {
    now - e.last_seen <= HEARTBEAT_STALE_SECS * SECOND
}

/// The heartbeats that are recent enough to count.
pub open spec fn fresh_heartbeats(v: PlaneView, now: u64) -> Map<u128, HeartbeatEntry> {
    v.heartbeats.restrict(
        v.heartbeats.dom().filter(|d: u128| is_fresh(v.heartbeats[d], now)),
    )
}

/// The data plane's state.
pub struct DataPlane {
    sessions: HashMap<u128, u128>,
    streams: HashMap<u128, StreamEntry>,
    udp: HashMap<u128, UdpSession>,
    loads: PairMap<usize>,
    peers: PairMap<u128>,
    channels: PairMap<u128>,
    heartbeats: HashMap<u128, HeartbeatEntry>,
}

impl View for DataPlane {
    type V = PlaneView;

    closed spec fn view(&self) -> PlaneView {
        PlaneView {
            sessions: self.sessions@,
            streams: self.streams@,
            udp: self.udp@,
            loads: Map::total(
                |k: (u128, u16)|
                    match self.loads@.get((k.0, k.1 as u64)) {
                        Some(n) => n,
                        None => 0usize,
                    },
            ),
            peers: self.peers@,
            channels: self.channels@,
            heartbeats: self.heartbeats@,
        }
    }
}

impl DataPlane {
    /// Channel numbers start at one and fit the wire format.
    pub closed spec fn wf(&self) -> bool {
        &&& self.loads.wf()
        &&& self.peers.wf()
        &&& self.channels.wf()
        &&& forall|k: (u128, u64)| #[trigger]
            self.channels@.contains_key(k) ==> 1 <= k.1 <= u16::MAX
    }

    pub fn new() -> (r: Self)
        ensures
            r.wf(),
            r@ == empty_plane(),
    {
        let r = DataPlane {
            sessions: HashMap::new(),
            streams: HashMap::new(),
            udp: HashMap::new(),
            loads: PairMap::new(),
            peers: PairMap::new(),
            channels: PairMap::new(),
            heartbeats: HashMap::new(),
        };
        assert(r@ =~= empty_plane());
        r
    }

    /// Live TCP streams and UDP sessions assigned to one data channel.
    pub fn channel_load(&self, device_id: u128, channel_id: u16) -> (r: usize)
        requires
            self.wf(),
        ensures
            r == self@.loads[(device_id, channel_id)],
            loads_counted(self@) ==> r == channel_streams(self@, (device_id, channel_id)).len()
                + channel_udp(self@, (device_id, channel_id)).len(),
    {
        match self.loads.get(device_id, channel_id as u64) {
            Some(n) => n,
            None => 0,
        }
    }

    fn set_load(&mut self, device_id: u128, channel_id: u16, load: usize)
        requires
            old(self).wf(),
        ensures
            final(self).wf(),
            final(self)@ == (PlaneView {
                loads: old(self)@.loads.insert((device_id, channel_id), load),
                ..old(self)@
            }),
    {
        self.loads.insert(device_id, channel_id as u64, load);
        assert(self@.loads =~= old(self)@.loads.insert((device_id, channel_id), load));
    }

    /// Counts one more stream or session on a channel.
    pub fn increment_channel_load(&mut self, device_id: u128, channel_id: u16)
        requires
            old(self).wf(),
        ensures
            final(self).wf(),
            final(self)@ == (PlaneView {
                loads: old(self)@.loads.insert(
                    (device_id, channel_id),
                    one_more(old(self)@.loads[(device_id, channel_id)]),
                ),
                ..old(self)@
            }),
            final(self)@ == load_raised(old(self)@, device_id, channel_id),
    {
        let load = self.channel_load(device_id, channel_id);
        self.set_load(device_id, channel_id, load.wrapping_add(1));
    }

    /// Counts one stream or session less on a channel, but never below zero.
    pub fn decrement_channel_load(&mut self, device_id: u128, channel_id: u16)
        requires
            old(self).wf(),
        ensures
            final(self).wf(),
            final(self)@ == (PlaneView {
                loads: old(self)@.loads.insert(
                    (device_id, channel_id),
                    lessened(old(self)@.loads[(device_id, channel_id)], 1),
                ),
                ..old(self)@
            }),
            final(self)@ == load_lowered(old(self)@, device_id, channel_id),
    {
        let load = self.channel_load(device_id, channel_id);
        self.set_load(device_id, channel_id, load.saturating_sub(1));
    }

    /// The connection id of a device's control session.
    pub fn session(&self, device_id: u128) -> (r: Option<u128>)
        ensures
            r == self@.sessions.get(device_id),
    {
        match self.sessions.get(&device_id) {
            Some(connection) => Some(*connection),
            None => None,
        }
    }

    /// The devices with a control session, each once.
    pub fn online_devices(&self) -> (r: Vec<u128>)
        ensures
            r@.no_duplicates(),
            r@.to_set() == self@.sessions.dom(),
    {
        keys_of(&self.sessions)
    }

    /// Registers a control session, in place of an earlier one of the device.
    pub fn open_session(&mut self, device_id: u128, connection_id: u128)
        requires
            old(self).wf(),
        ensures
            final(self).wf(),
            final(self)@ == (PlaneView {
                sessions: old(self)@.sessions.insert(device_id, connection_id),
                ..old(self)@
            }),
            final(self)@ == session_opened(old(self)@, device_id, connection_id),
    {
        self.sessions.insert(device_id, connection_id);
        assert(self@.loads =~= old(self)@.loads);
    }

    /// Ends a control session unless a newer connection has replaced it.
    pub fn end_session(&mut self, device_id: u128, connection_id: u128) -> (removed: bool)
        requires
            old(self).wf(),
        ensures
            final(self).wf(),
            removed == old(self)@.sessions.contains_pair(device_id, connection_id),
            final(self)@ == (PlaneView {
                sessions: if removed {
                    old(self)@.sessions.remove(device_id)
                } else {
                    old(self)@.sessions
                },
                ..old(self)@
            }),
            final(self)@.sessions == without_owned(
                old(self)@.sessions,
                device_id,
                connection_id,
            ),
    {
        let removed = remove_session_if_owned(&mut self.sessions, device_id, connection_id);
        assert(self@.loads =~= old(self)@.loads);
        removed
    }

    /// A live stream.
    pub fn stream(&self, id: u128) -> (r: Option<StreamEntry>)
        ensures
            r == self@.streams.get(id),
    {
        match self.streams.get(&id) {
            Some(entry) => Some(*entry),
            None => None,
        }
    }

    /// A live UDP session.
    pub fn udp_session(&self, id: u128) -> (r: Option<UdpSession>)
        ensures
            r == self@.udp.get(id),
    {
        match self.udp.get(&id) {
            Some(session) => Some(*session),
            None => None,
        }
    }

    /// The UDP session of one client of a tunnel.
    pub fn udp_peer(&self, tunnel_id: u128, peer: u64) -> (r: Option<u128>)
        requires
            self.wf(),
        ensures
            r == self@.peers.get((tunnel_id, peer)),
    {
        self.peers.get(tunnel_id, peer)
    }

    /// The control connection that a data channel is bound to.
    pub fn channel(&self, device_id: u128, channel_id: u16) -> (r: Option<u128>)
        requires
            self.wf(),
        ensures
            r == self@.channels.get((device_id, channel_id as u64)),
    {
        self.channels.get(device_id, channel_id as u64)
    }

    /// Inserts a UDP session and keeps the channel load and the per-tunnel
    /// client index in step.
    pub fn insert_udp_session(&mut self, id: u128, session: UdpSession)
        requires
            old(self).wf(),
        ensures
            final(self).wf(),
            final(self)@ == add_udp(old(self)@, id, session),
    {
        self.increment_channel_load(session.device_id, session.data_channel);
        self.peers.insert(session.tunnel_id, session.peer, id);
        self.udp.insert(id, session);
        assert(self@ =~= add_udp(old(self)@, id, session));
    }

    /// Removes a UDP session together with its index entry and its share of
    /// the channel load. An id that is gone already changes nothing.
    pub fn remove_udp_session(&mut self, id: u128)
        requires
            old(self).wf(),
        ensures
            final(self).wf(),
            final(self)@ == drop_udp(old(self)@, set![id]),
    {
        let ghost before = self@;
        let session = self.udp_session(id);
        match session {
            Some(session) => {
                self.udp.remove(&id);
                assert(self@.loads =~= before.loads);
                self.decrement_channel_load(session.device_id, session.data_channel);
                self.peers.remove(session.tunnel_id, session.peer);
                proof {
                    let after = drop_udp(before, set![id]);
                    assert(self@.udp =~= after.udp);
                    assert forall|k: (u128, u16)| self@.loads[k] == after.loads[k] by {
                        if udp_on(session, k) {
                            assert(udp_among(before.udp, set![id], k) =~= set![id]);
                        } else {
                            assert(udp_among(before.udp, set![id], k) =~= Set::empty());
                        }
                    }
                    assert(self@.loads =~= after.loads);
                    assert(before.udp.contains_key(id));
                    assert(peers_of(before.udp, set![id]) =~= set![(
                        session.tunnel_id,
                        session.peer,
                    )]);
                    assert(self@.peers =~= after.peers);
                }
            },
            None => {
                proof {
                    let after = drop_udp(before, set![id]);
                    assert(self@.udp =~= after.udp);
                    assert forall|k: (u128, u16)| self@.loads[k] == after.loads[k] by {
                        assert(udp_among(before.udp, set![id], k) =~= Set::empty());
                    }
                    assert(self@.loads =~= after.loads);
                    assert(self@.peers =~= after.peers);
                }
            },
        }
    }

    /// Removes a stream and takes it off its channel's load. An id that is
    /// gone already changes nothing.
    pub fn remove_stream_entry(&mut self, id: u128)
        requires
            old(self).wf(),
        ensures
            final(self).wf(),
            final(self)@ == drop_streams(old(self)@, set![id]),
    {
        let ghost before = self@;
        let entry = self.stream(id);
        match entry {
            Some(entry) => {
                self.streams.remove(&id);
                assert(self@.loads =~= before.loads);
                self.decrement_channel_load(entry.device_id, entry.data_channel);
                proof {
                    let after = drop_streams(before, set![id]);
                    assert(self@.streams =~= after.streams);
                    assert forall|k: (u128, u16)| self@.loads[k] == after.loads[k] by {
                        if stream_on(entry, k) {
                            assert(streams_among(before.streams, set![id], k) =~= set![id]);
                        } else {
                            assert(streams_among(before.streams, set![id], k) =~= Set::empty());
                        }
                    }
                    assert(self@.loads =~= after.loads);
                }
            },
            None => {
                proof {
                    let after = drop_streams(before, set![id]);
                    assert(self@.streams =~= after.streams);
                    assert forall|k: (u128, u16)| self@.loads[k] == after.loads[k] by {
                        assert(streams_among(before.streams, set![id], k) =~= Set::empty());
                    }
                    assert(self@.loads =~= after.loads);
                }
            },
        }
    }

    /// Removes streams.
    fn remove_streams(&mut self, ids: &Vec<u128>)
        requires
            old(self).wf(),
            ids@.no_duplicates(),
        ensures
            final(self).wf(),
            final(self)@ == drop_streams(old(self)@, ids@.to_set()),
    {
        let ghost before = self@;
        let mut i: usize = 0;
        proof {
            lemma_drop_streams_none(before);
            assert(ids@.take(0).to_set() =~= Set::empty());
        }
        while i < ids.len()
            invariant
                i <= ids.len(),
                ids@.no_duplicates(),
                self.wf(),
                self@ == drop_streams(before, ids@.take(i as int).to_set()),
            decreases ids.len() - i,
        {
            self.remove_stream_entry(ids[i]);
            proof {
                let done = ids@.take(i as int);
                assert(!done.to_set().contains(ids@[i as int]));
                assert(ids@.take(i + 1).to_set() =~= done.to_set().insert(ids@[i as int])) by {
                    assert(ids@.take(i + 1) =~= done.push(ids@[i as int]));
                    done.lemma_push_to_set_commute(ids@[i as int]);
                }
                lemma_drop_streams_step(before, done.to_set(), ids@[i as int]);
            }
            i += 1;
        }
        assert(ids@.take(ids@.len() as int) =~= ids@);
    }

    /// Removes UDP sessions.
    fn remove_udp_sessions(&mut self, ids: &Vec<u128>)
        requires
            old(self).wf(),
            ids@.no_duplicates(),
        ensures
            final(self).wf(),
            final(self)@ == drop_udp(old(self)@, ids@.to_set()),
    {
        let ghost before = self@;
        let mut i: usize = 0;
        proof {
            lemma_drop_udp_none(before);
            assert(ids@.take(0).to_set() =~= Set::empty());
        }
        while i < ids.len()
            invariant
                i <= ids.len(),
                ids@.no_duplicates(),
                self.wf(),
                self@ == drop_udp(before, ids@.take(i as int).to_set()),
            decreases ids.len() - i,
        {
            self.remove_udp_session(ids[i]);
            proof {
                let done = ids@.take(i as int);
                assert(!done.to_set().contains(ids@[i as int]));
                assert(ids@.take(i + 1).to_set() =~= done.to_set().insert(ids@[i as int])) by {
                    assert(ids@.take(i + 1) =~= done.push(ids@[i as int]));
                    done.lemma_push_to_set_commute(ids@[i as int]);
                }
                lemma_drop_udp_step(before, done.to_set(), ids@[i as int]);
            }
            i += 1;
        }
        assert(ids@.take(ids@.len() as int) =~= ids@);
    }

    /// Removes every stream and UDP session assigned to one data channel and
    /// returns their ids, streams first, so that the agent can be told.
    pub fn close_channel_streams(&mut self, device_id: u128, channel_id: u16) -> (r: Vec<u128>)
        requires
            old(self).wf(),
        ensures
            final(self).wf(),
            final(self)@ == close_channel(old(self)@, (device_id, channel_id)),
            exists|n: int|
                0 <= n <= r@.len() && (#[trigger] r@.take(n)).no_duplicates()
                    && r@.take(n).to_set() == channel_streams(old(self)@, (device_id, channel_id))
                    && r@.skip(n).no_duplicates() && r@.skip(n).to_set() == channel_udp(
                    old(self)@,
                    (device_id, channel_id),
                ),
    {
        let ghost k = (device_id, channel_id);
        let ghost before = self@;
        let keep = |e: StreamEntry| -> (b: bool)
            ensures
                b == stream_on(e, k),
        { e.device_id == device_id && e.data_channel == channel_id };
        let mut tcp = keys_where(&self.streams, keep, Ghost(|e: StreamEntry| stream_on(e, k)));
        assert(tcp@.to_set() =~= channel_streams(before, k));
        self.remove_streams(&tcp);
        let keep = |e: UdpSession| -> (b: bool)
            ensures
                b == udp_on(e, k),
        { e.device_id == device_id && e.data_channel == channel_id };
        let udp = keys_where(&self.udp, keep, Ghost(|e: UdpSession| udp_on(e, k)));
        assert(udp@.to_set() =~= channel_udp(self@, k));
        assert(udp@.to_set() =~= channel_udp(before, k));
        self.remove_udp_sessions(&udp);
        let ghost first = tcp@;
        extend_ids(&mut tcp, &udp);
        assert(tcp@.take(first.len() as int) =~= first);
        assert(tcp@.skip(first.len() as int) =~= udp@);
        tcp
    }

    /// Removes a data channel whose socket dropped, with everything it
    /// carried, and returns the ids of that.
    pub fn drop_data_channel(&mut self, device_id: u128, channel_id: u16) -> (r: Vec<u128>)
        requires
            old(self).wf(),
        ensures
            final(self).wf(),
            final(self)@ == drop_channel(old(self)@, (device_id, channel_id)),
            exists|n: int|
                0 <= n <= r@.len() && (#[trigger] r@.take(n)).no_duplicates()
                    && r@.take(n).to_set() == channel_streams(old(self)@, (device_id, channel_id))
                    && r@.skip(n).no_duplicates() && r@.skip(n).to_set() == channel_udp(
                    old(self)@,
                    (device_id, channel_id),
                ),
    {
        let r = self.close_channel_streams(device_id, channel_id);
        self.channels.remove(device_id, channel_id as u64);
        assert(self@ =~= drop_channel(old(self)@, (device_id, channel_id)));
        r
    }

    /// Removes the channel entries bound to one control connection and returns
    /// their numbers.
    fn remove_bound_channels(&mut self, device_id: u128, connection_id: u128) -> (r: Vec<u16>)
        requires
            old(self).wf(),
        ensures
            final(self).wf(),
            final(self)@ == (PlaneView {
                channels: old(self)@.channels.remove_keys(
                    bound_channels(old(self)@, device_id, connection_id),
                ),
                ..old(self)@
            }),
            r@.no_duplicates(),
            forall|c: u16| #[trigger]
                r@.contains(c) <==> old(self)@.channels.contains_pair(
                    (device_id, c as u64),
                    connection_id,
                ),
    {
        let ghost before = self@;
        let all = self.channels.numbers(device_id);
        let mut out: Vec<u16> = Vec::new();
        let mut i: usize = 0;
        assert(self@.channels =~= before.channels.remove_keys(
            Set::new(
                |k: (u128, u64)|
                    k.0 == device_id && before.channels.contains_pair(k, connection_id)
                        && all@.take(0).contains(k.1),
            ),
        ));
        while i < all.len()
            invariant
                i <= all.len(),
                all@.no_duplicates(),
                all@.to_set() == numbers(before.channels, device_id),
                self.wf(),
                forall|n: u64| #[trigger]
                    before.channels.contains_key((device_id, n)) ==> 1 <= n <= u16::MAX,
                self@ == (PlaneView { channels: self@.channels, ..before }),
                self@.channels == before.channels.remove_keys(
                    Set::new(
                        |k: (u128, u64)|
                            k.0 == device_id && before.channels.contains_pair(k, connection_id)
                                && all@.take(i as int).contains(k.1),
                    ),
                ),
                out@.no_duplicates(),
                forall|c: u16| #[trigger]
                    out@.contains(c) <==> before.channels.contains_pair(
                        (device_id, c as u64),
                        connection_id,
                    ) && all@.take(i as int).contains(c as u64),
            decreases all.len() - i,
        {
            let n: u64 = all[i];
            let ghost done = all@.take(i as int);
            let ghost prior = out@;
            proof {
                assert(all@.take(i + 1) =~= done.push(n));
                assert forall|m: u64| all@.take(i + 1).contains(m) == (done.contains(m) || m
                    == n) by {
                    if done.contains(m) {
                        let j = choose|j: int| 0 <= j < done.len() && done[j] == m;
                        assert(all@.take(i + 1)[j] == m);
                    }
                    assert(all@.take(i + 1)[i as int] == n);
                }
                assert(all@.to_set().contains(n));
                assert(before.channels.contains_key((device_id, n)));
                assert(!done.contains(n));
            }
            let bound = match self.channels.get(device_id, n) {
                Some(owner) => owner == connection_id,
                None => false,
            };
            assert(bound == before.channels.contains_pair((device_id, n), connection_id));
            if bound {
                let c: u16 = n as u16;
                self.channels.remove(device_id, n);
                out.push(c);
                proof {
                    assert(c as u64 == n);
                    assert(!prior.contains(c));
                    assert(out@[prior.len() as int] == c);
                    assert forall|d: u16| #[trigger] out@.contains(d) == (prior.contains(d) || d
                        == c) by {
                        if prior.contains(d) {
                            let j = choose|j: int| 0 <= j < prior.len() && prior[j] == d;
                            assert(out@[j] == d);
                        }
                    }
                    assert(out@.no_duplicates());
                }
            }
            i += 1;
            assert(self@.channels =~= before.channels.remove_keys(
                Set::new(
                    |k: (u128, u64)|
                        k.0 == device_id && before.channels.contains_pair(k, connection_id)
                            && all@.take(i as int).contains(k.1),
                ),
            ));
            assert(self@.loads =~= before.loads);
        }
        assert(all@.take(all@.len() as int) =~= all@);
        assert forall|c: u16| #[trigger] out@.contains(c) <==> before.channels.contains_pair(
            (device_id, c as u64),
            connection_id,
        ) by {
            if before.channels.contains_pair((device_id, c as u64), connection_id) {
                assert(all@.to_set().contains(c as u64));
            }
        }
        assert(self@.channels =~= before.channels.remove_keys(
            bound_channels(before, device_id, connection_id),
        )) by {
            assert forall|k: (u128, u64)|
                k.0 == device_id && before.channels.contains_pair(
                    k,
                    connection_id,
                ) implies all@.contains(k.1) by {
                assert(all@.to_set().contains(k.1));
            }
        }
        out
    }

    /// Tears down the data channels bound to one control connection. Channels
    /// opened by a newer connection are left untouched.
    pub fn teardown_device_data_channels(&mut self, device_id: u128, connection_id: u128) -> (r:
        Teardown)
        requires
            old(self).wf(),
        ensures
            final(self).wf(),
            final(self)@ == teardown(old(self)@, device_id, connection_id),
            r.streams@.no_duplicates(),
            r.streams@.to_set() == bound_streams(old(self)@, device_id, connection_id),
            r.udp@.no_duplicates(),
            r.udp@.to_set() == bound_udp(old(self)@, device_id, connection_id),
            r.channels@.no_duplicates(),
            forall|c: u16| #[trigger]
                r.channels@.contains(c) <==> old(self)@.channels.contains_pair(
                    (device_id, c as u64),
                    connection_id,
                ),
    {
        let ghost before = self@;
        let channels = &self.channels;
        let ghost p = |e: StreamEntry|
            e.device_id == device_id && before.channels.contains_pair(
                (device_id, e.data_channel as u64),
                connection_id,
            );
        let keep = |e: StreamEntry| -> (b: bool)
            ensures
                b == p(e),
        {
                    e.device_id == device_id && match channels.get(
                        device_id,
                        e.data_channel as u64,
                    ) {
                        Some(owner) => owner == connection_id,
                        None => false,
                    }
                };
        let streams = keys_where(&self.streams, keep, Ghost(p));
        assert(streams@.to_set() =~= bound_streams(before, device_id, connection_id));
        let ghost q = |e: UdpSession|
            e.device_id == device_id && before.channels.contains_pair(
                (device_id, e.data_channel as u64),
                connection_id,
            );
        let keep = |e: UdpSession| -> (b: bool)
            ensures
                b == q(e),
        {
                    e.device_id == device_id && match channels.get(
                        device_id,
                        e.data_channel as u64,
                    ) {
                        Some(owner) => owner == connection_id,
                        None => false,
                    }
                };
        let udp = keys_where(&self.udp, keep, Ghost(q));
        assert(udp@.to_set() =~= bound_udp(before, device_id, connection_id));
        self.remove_streams(&streams);
        self.remove_udp_sessions(&udp);
        let removed = self.remove_bound_channels(device_id, connection_id);
        assert(bound_channels(self@, device_id, connection_id) =~= Set::empty());
        assert(self@.channels =~= teardown(before, device_id, connection_id).channels);
        Teardown { streams, udp, channels: removed }
    }

    /// Drops the UDP sessions of one control connection. Sessions created by a
    /// newer connection of the device stay.
    pub fn drop_invalid_udp_sessions(&mut self, device_id: u128, connection_id: u128)
        requires
            old(self).wf(),
        ensures
            final(self).wf(),
            final(self)@ == drop_udp(
                old(self)@,
                connection_udp(old(self)@, device_id, connection_id),
            ),
    {
        let ghost p = |e: UdpSession|
            e.device_id == device_id && e.connection_id == connection_id;
        let keep = |e: UdpSession| -> (b: bool)
            ensures
                b == p(e),
        { e.device_id == device_id && e.connection_id == connection_id };
        let ids = keys_where(&self.udp, keep, Ghost(p));
        assert(ids@.to_set() =~= connection_udp(self@, device_id, connection_id));
        self.remove_udp_sessions(&ids);
    }

    /// Cleans up after a control connection that ended. Returns whether its
    /// session was still the current one, and what was torn down.
    pub fn end_control(&mut self, device_id: u128, connection_id: u128) -> (r: (bool, Teardown))
        requires
            old(self).wf(),
        ensures
            final(self).wf(),
            final(self)@ == control_ended(old(self)@, device_id, connection_id),
            r.0 == old(self)@.sessions.contains_pair(device_id, connection_id),
            r.1.streams@.no_duplicates(),
            r.1.streams@.to_set() == bound_streams(old(self)@, device_id, connection_id),
            r.1.udp@.no_duplicates(),
            r.1.udp@.to_set() == bound_udp(old(self)@, device_id, connection_id).difference(
                connection_udp(old(self)@, device_id, connection_id),
            ),
            r.1.channels@.no_duplicates(),
            forall|c: u16| #[trigger]
                r.1.channels@.contains(c) <==> old(self)@.channels.contains_pair(
                    (device_id, c as u64),
                    connection_id,
                ),
    {
        let ghost before = self@;
        let removed = self.end_session(device_id, connection_id);
        remove_heartbeat_if_owned(&mut self.heartbeats, device_id, connection_id);
        assert(self@.loads =~= before.loads);
        let ghost ids = connection_udp(before, device_id, connection_id);
        assert(connection_udp(self@, device_id, connection_id) =~= ids);
        self.drop_invalid_udp_sessions(device_id, connection_id);
        let torn = self.teardown_device_data_channels(device_id, connection_id);
        assert(torn.streams@.to_set() =~= bound_streams(before, device_id, connection_id));
        assert(torn.udp@.to_set() =~= bound_udp(before, device_id, connection_id).difference(ids));
        (removed, torn)
    }

    /// Ends the control session of a device that is being deleted.
    pub fn evict_device(&mut self, device_id: u128) -> (r: Option<Teardown>)
        requires
            old(self).wf(),
        ensures
            final(self).wf(),
            !old(self)@.sessions.contains_key(device_id) ==> r is None && final(self)@ == old(
                self,
            )@,
            old(self)@.sessions.contains_key(device_id) ==> ({
                let connection = old(self)@.sessions[device_id];
                let w = teardown(old(self)@, device_id, connection);
                let x = drop_udp(w, connection_udp(w, device_id, connection));
                &&& final(self)@ == (PlaneView { sessions: x.sessions.remove(device_id), ..x })
                &&& r matches Some(torn) && torn.streams@.no_duplicates()
                    && torn.streams@.to_set() == bound_streams(old(self)@, device_id, connection)
                    && torn.udp@.no_duplicates() && torn.udp@.to_set() == bound_udp(
                    old(self)@,
                    device_id,
                    connection,
                ) && torn.channels@.no_duplicates() && (forall|c: u16| #[trigger]
                    torn.channels@.contains(c) <==> old(self)@.channels.contains_pair(
                        (device_id, c as u64),
                        connection,
                    ))
            }),
            final(self)@ == evicted(old(self)@, device_id),
    {
        match self.session(device_id) {
            None => None,
            Some(connection) => {
                let torn = self.teardown_device_data_channels(device_id, connection);
                self.drop_invalid_udp_sessions(device_id, connection);
                self.end_session(device_id, connection);
                Some(torn)
            },
        }
    }

    /// Picks the data channel with the least load, and the lowest number of
    /// those. Only channels bound to the device's current control session are
    /// eligible, so a stale channel left over from a fast reconnect is never
    /// handed out.
    pub fn pick_data_channel(&self, device_id: u128) -> (r: Option<u16>)
        requires
            self.wf(),
        ensures
            r is None <==> forall|c: u16| !#[trigger] eligible(self@, device_id, c),
            r matches Some(c) ==> best_channel(self@, device_id, c),
    {
        let connection: u128 = match self.session(device_id) {
            Some(connection) => connection,
            None => {
                return None;
            },
        };
        let all = self.channels.numbers(device_id);
        let mut best: Option<u16> = None;
        let mut i: usize = 0;
        while i < all.len()
            invariant
                i <= all.len(),
                self.wf(),
                self@.sessions.contains_pair(device_id, connection),
                all@.to_set() == numbers(self@.channels, device_id),
                forall|n: u64| #[trigger]
                    self@.channels.contains_key((device_id, n)) ==> 1 <= n <= u16::MAX,
                best is None ==> forall|c: u16| #[trigger]
                    eligible(self@, device_id, c) ==> !all@.take(i as int).contains(c as u64),
                best matches Some(b) ==> eligible(self@, device_id, b) && forall|c: u16| #[trigger]
                    eligible(self@, device_id, c) && all@.take(i as int).contains(c as u64)
                        ==> self@.loads[(device_id, b)] < self@.loads[(device_id, c)] || (
                    self@.loads[(device_id, b)] == self@.loads[(device_id, c)] && b <= c),
            decreases all.len() - i,
        {
            let n: u64 = all[i];
            proof {
                let done = all@.take(i as int);
                let next = all@.take(i + 1);
                assert(all@.to_set().contains(n));
                assert(self@.channels.contains_key((device_id, n)));
                assert(next =~= done.push(n));
                assert forall|m: u64| next.contains(m) implies done.contains(m) || m == n by {
                    let j = choose|j: int| 0 <= j < next.len() && next[j] == m;
                    if j < i {
                        assert(done[j] == m);
                    }
                }
            }
            let bound = match self.channels.get(device_id, n) {
                Some(owner) => owner == connection,
                None => false,
            };
            let c: u16 = n as u16;
            assert(c as u64 == n);
            assert(bound == eligible(self@, device_id, c));
            if bound {
                let load: usize = self.channel_load(device_id, c);
                match best {
                    None => {
                        best = Some(c);
                    },
                    Some(b) => {
                        let best_load: usize = self.channel_load(device_id, b);
                        if load < best_load || (load == best_load && c < b) {
                            best = Some(c);
                        }
                    },
                }
            }
            i += 1;
        }
        proof {
            assert(all@.take(all@.len() as int) =~= all@);
            assert forall|c: u16| #[trigger] eligible(self@, device_id, c) implies all@.contains(
                c as u64,
            ) by {
                assert(all@.to_set().contains(c as u64));
            }
        }
        best
    }

    /// What a connection that waits for a data channel learns when the set of
    /// channels or sessions has changed: the channel to use, or that there is
    /// no use in waiting because the control session is gone.
    pub fn recheck_data_channel(&self, device_id: u128) -> (r: Result<Option<u16>, ()>)
        requires
            self.wf(),
        ensures
            r is Err <==> !self@.sessions.contains_key(device_id),
            r matches Ok(None) ==> forall|c: u16| !#[trigger] eligible(self@, device_id, c),
            r matches Ok(Some(c)) ==> best_channel(self@, device_id, c),
    {
        if self.session(device_id).is_none() {
            return Err(());
        }
        Ok(self.pick_data_channel(device_id))
    }

    /// Binds a data socket to the device's current control session under the
    /// lowest free channel number from 1 to `max`. Returns the connection and
    /// the channel; nothing changes and nothing is returned when the device
    /// has no control session or `max` channels already.
    pub fn bind_data_channel(&mut self, device_id: u128, max: u16) -> (r: Option<(u128, u16)>)
        requires
            old(self).wf(),
        ensures
            final(self).wf(),
            r is None <==> !old(self)@.sessions.contains_key(device_id) || numbers(
                old(self)@.channels,
                device_id,
            ).len() >= max,
            r is None ==> final(self)@ == old(self)@,
            r matches Some((connection, c)) ==> {
                &&& connection == old(self)@.sessions[device_id]
                &&& 1 <= c <= max
                &&& !old(self)@.channels.contains_key((device_id, c as u64))
                &&& forall|d: u16|
                    1 <= d < c ==> #[trigger] old(self)@.channels.contains_key(
                        (device_id, d as u64),
                    )
                &&& final(self)@ == (PlaneView {
                    channels: old(self)@.channels.insert((device_id, c as u64), connection),
                    ..old(self)@
                })
            },
            binds_channel(old(self)@, final(self)@, device_id, max, r),
    {
        let connection: u128 = match self.session(device_id) {
            Some(connection) => connection,
            None => {
                return None;
            },
        };
        let all = self.channels.numbers(device_id);
        proof {
            all@.unique_seq_to_set();
        }
        if all.len() >= max as usize {
            return None;
        }
        let ghost used = numbers(self@.channels, device_id);
        let mut c: u16 = 1;
        while c <= max && self.channels.get(device_id, c as u64).is_some()
            invariant
                self.wf(),
                self@ == old(self)@,
                used == numbers(self@.channels, device_id),
                used.finite(),
                used.len() < max,
                1 <= c <= max,
                forall|d: u16|
                    1 <= d < c ==> #[trigger] self@.channels.contains_key((device_id, d as u64)),
            decreases max - c,
        {
            proof {
                if c == max {
                    lemma_first_numbers(used, max as nat);
                }
            }
            c += 1;
        }
        self.channels.insert(device_id, c as u64, connection);
        assert(self@ =~= (PlaneView {
            channels: old(self)@.channels.insert((device_id, c as u64), connection),
            ..old(self)@
        }));
        Some((connection, c))
    }

    /// The number of live streams of one tunnel.
    fn active_streams(&self, device_id: u128, tunnel_id: u128) -> (r: usize)
        ensures
            r == tunnel_streams(self@, device_id, tunnel_id).len(),
    {
        let ghost p = |e: StreamEntry| e.device_id == device_id && e.tunnel_id == tunnel_id;
        let keep = |e: StreamEntry| -> (b: bool)
            ensures
                b == p(e),
        { e.device_id == device_id && e.tunnel_id == tunnel_id };
        let ids = keys_where(&self.streams, keep, Ghost(p));
        proof {
            assert(ids@.to_set() =~= tunnel_streams(self@, device_id, tunnel_id));
            ids@.unique_seq_to_set();
        }
        ids.len()
    }

    /// Live TCP streams plus UDP sessions of one tunnel.
    pub fn tunnel_connections(&self, device_id: u128, tunnel_id: u128) -> (r: u128)
        ensures
            r == tunnel_streams(self@, device_id, tunnel_id).len() + tunnel_udp(
                self@,
                tunnel_id,
            ).len(),
    {
        let ghost p = |e: UdpSession| e.tunnel_id == tunnel_id;
        let keep = |e: UdpSession| -> (b: bool)
            ensures
                b == p(e),
        { e.tunnel_id == tunnel_id };
        let ids = keys_where(&self.udp, keep, Ghost(p));
        proof {
            assert(ids@.to_set() =~= tunnel_udp(self@, tunnel_id));
            ids@.unique_seq_to_set();
        }
        self.active_streams(device_id, tunnel_id) as u128 + ids.len() as u128
    }

    /// Registers a new stream when its tunnel has capacity. Returns false, and
    /// changes nothing, once `max_connections` streams of the tunnel are
    /// active.
    pub fn try_register_stream(
        &mut self,
        id: u128,
        device_id: u128,
        tunnel_id: u128,
        data_channel: u16,
        max_connections: usize,
    ) -> (registered: bool)
        requires
            old(self).wf(),
        ensures
            final(self).wf(),
            registered == (tunnel_streams(old(self)@, device_id, tunnel_id).len()
                < max_connections),
            registered == below_limit(old(self)@, device_id, tunnel_id, max_connections),
            final(self)@ == if registered {
                add_stream(
                    old(self)@,
                    id,
                    (StreamEntry { device_id, tunnel_id, data_channel, outstanding: 0 }),
                )
            } else {
                old(self)@
            },
    {
        if self.active_streams(device_id, tunnel_id) >= max_connections {
            return false;
        }
        let entry = StreamEntry { device_id, tunnel_id, data_channel, outstanding: 0 };
        self.streams.insert(id, entry);
        assert(self@.loads =~= old(self)@.loads);
        self.increment_channel_load(device_id, data_channel);
        true
    }

    /// Admits a public TCP connection for which a channel was found: the
    /// channel must still belong to the device's current control session and
    /// the tunnel must have capacity. Returns the control connection to open
    /// the stream on.
    pub fn admit_connection(
        &mut self,
        id: u128,
        device_id: u128,
        tunnel_id: u128,
        data_channel: u16,
        max_connections: usize,
    ) -> (r: Option<u128>)
        requires
            old(self).wf(),
        ensures
            final(self).wf(),
            r is Some <==> eligible(old(self)@, device_id, data_channel) && tunnel_streams(
                old(self)@,
                device_id,
                tunnel_id,
            ).len() < max_connections,
            r is Some <==> eligible(old(self)@, device_id, data_channel) && below_limit(
                old(self)@,
                device_id,
                tunnel_id,
                max_connections,
            ),
            r is None ==> final(self)@ == old(self)@,
            r matches Some(connection) ==> connection == old(self)@.sessions[device_id]
                && final(self)@ == add_stream(
                old(self)@,
                id,
                (StreamEntry { device_id, tunnel_id, data_channel, outstanding: 0 }),
            ),
    {
        let connection: u128 = match self.session(device_id) {
            Some(connection) => connection,
            None => {
                return None;
            },
        };
        let bound = match self.channel(device_id, data_channel) {
            Some(owner) => owner == connection,
            None => false,
        };
        if !bound {
            return None;
        }
        if !self.try_register_stream(id, device_id, tunnel_id, data_channel, max_connections) {
            return None;
        }
        Some(connection)
    }

    /// Reserves one place of a stream's share of the channel queue. At the
    /// quota the stream has to wait; a stream that is gone gets none.
    pub fn acquire_stream_slot(&mut self, id: u128) -> (r: SlotOutcome)
        requires
            old(self).wf(),
        ensures
            final(self).wf(),
            r is Gone <==> !old(self)@.streams.contains_key(id),
            r is Acquired <==> old(self)@.streams.contains_key(id)
                && old(self)@.streams[id].outstanding < STREAM_CHANNEL_QUOTA,
            r is Acquired <==> has_slot(old(self)@, id),
            final(self)@ == if r is Acquired {
                slot_taken(old(self)@, id)
            } else {
                old(self)@
            },
    {
        match self.stream(id) {
            None => SlotOutcome::Gone,
            Some(entry) => {
                if entry.outstanding < STREAM_CHANNEL_QUOTA {
                    self.streams.insert(
                        id,
                        StreamEntry { outstanding: entry.outstanding + 1, ..entry },
                    );
                    assert(self@.loads =~= old(self)@.loads);
                    SlotOutcome::Acquired
                } else {
                    SlotOutcome::Wait
                }
            },
        }
    }

    /// Returns one place after the channel writer took the frame. Says whether
    /// the stream is still there, so that its bridge can be woken.
    pub fn release_stream_slot(&mut self, id: u128) -> (r: bool)
        requires
            old(self).wf(),
        ensures
            final(self).wf(),
            r == old(self)@.streams.contains_key(id),
            final(self)@ == if r {
                slot_freed(old(self)@, id)
            } else {
                old(self)@
            },
    {
        match self.stream(id) {
            None => false,
            Some(entry) => {
                self.streams.insert(
                    id,
                    StreamEntry { outstanding: entry.outstanding.saturating_sub(1), ..entry },
                );
                assert(self@.loads =~= old(self)@.loads);
                true
            },
        }
    }

    /// Closes what an agent said it closed: the stream or UDP session.
    pub fn close_stream(&mut self, id: u128)
        requires
            old(self).wf(),
        ensures
            final(self).wf(),
            final(self)@ == drop_udp(drop_streams(old(self)@, set![id]), set![id]),
    {
        self.remove_stream_entry(id);
        self.remove_udp_session(id);
    }

    /// Notes that a UDP session is in use.
    pub fn touch_udp_session(&mut self, id: u128, now: u64)
        requires
            old(self).wf(),
        ensures
            final(self).wf(),
            final(self)@ == touched(old(self)@, id, now),
    {
        match self.udp_session(id) {
            None => {},
            Some(session) => {
                self.udp.insert(id, UdpSession { last_seen: now, ..session });
                assert(self@.loads =~= old(self)@.loads);
            },
        }
    }

    /// Records a heartbeat of a control session.
    pub fn record_heartbeat(
        &mut self,
        device_id: u128,
        connection_id: u128,
        latency_ms: u32,
        now: u64,
    )
        requires
            old(self).wf(),
        ensures
            final(self).wf(),
            final(self)@ == (PlaneView {
                heartbeats: old(self)@.heartbeats.insert(
                    device_id,
                    (HeartbeatEntry {
                        connection_id,
                        latency_ms: signed_latency(latency_ms),
                        last_seen: now,
                    }),
                ),
                ..old(self)@
            }),
            final(self)@ == heartbeat_noted(
                old(self)@,
                device_id,
                connection_id,
                latency_ms,
                now,
            ),
    {
        let signed: i32 = if latency_ms <= 2_147_483_647 {
            latency_ms as i32
        } else {
            (latency_ms as i64 - 4_294_967_296) as i32
        };
        self.heartbeats.insert(
            device_id,
            HeartbeatEntry { connection_id, latency_ms: signed, last_seen: now },
        );
        assert(self@.loads =~= old(self)@.loads);
    }

    /// Drops heartbeats that are too old and returns the device and latency of
    /// each that is left.
    pub fn flush_heartbeats(&mut self, now: u64) -> (r: Vec<(u128, i32)>)
        requires
            old(self).wf(),
        ensures
            final(self).wf(),
            final(self)@ == (PlaneView {
                heartbeats: fresh_heartbeats(old(self)@, now),
                ..old(self)@
            }),
            r@.no_duplicates(),
            forall|p: (u128, i32)| #[trigger]
                r@.contains(p) <==> final(self)@.heartbeats.contains_key(p.0)
                    && final(self)@.heartbeats[p.0].latency_ms == p.1,
    {
        let ghost before = self@;
        let ghost p = |e: HeartbeatEntry| !is_fresh(e, now);
        let keep = |e: HeartbeatEntry| -> (b: bool)
            ensures
                b == p(e),
        { e.last_seen <= now && now - e.last_seen > HEARTBEAT_STALE_SECS * SECOND };
        let stale = keys_where(&self.heartbeats, keep, Ghost(p));
        let mut i: usize = 0;
        assert(self.heartbeats@ =~= before.heartbeats.remove_keys(stale@.take(0).to_set()));
        while i < stale.len()
            invariant
                i <= stale.len(),
                self.wf(),
                self@ == (PlaneView { heartbeats: self@.heartbeats, ..before }),
                self@.heartbeats == before.heartbeats.remove_keys(stale@.take(i as int).to_set()),
            decreases stale.len() - i,
        {
            self.heartbeats.remove(&stale[i]);
            proof {
                let done = stale@.take(i as int);
                assert(stale@.take(i + 1) =~= done.push(stale@[i as int]));
                done.lemma_push_to_set_commute(stale@[i as int]);
                assert(self@.heartbeats =~= before.heartbeats.remove_keys(
                    stale@.take(i + 1).to_set(),
                ));
                assert(self@.loads =~= before.loads);
            }
            i += 1;
        }
        assert(stale@.take(stale@.len() as int) =~= stale@);
        assert(self@.heartbeats =~= fresh_heartbeats(before, now));
        let devices = keys_of(&self.heartbeats);
        let mut out: Vec<(u128, i32)> = Vec::new();
        let mut j: usize = 0;
        while j < devices.len()
            invariant
                j <= devices.len(),
                devices@.no_duplicates(),
                devices@.to_set() == self.heartbeats@.dom(),
                out@.len() == j,
                forall|n: int|
                    0 <= n < j ==> #[trigger] out@[n] == (
                        devices@[n],
                        self.heartbeats@[devices@[n]].latency_ms,
                    ),
            decreases devices.len() - j,
        {
            let device: u128 = devices[j];
            assert(devices@.to_set().contains(device));
            match self.heartbeats.get(&device) {
                Some(entry) => {
                    out.push((device, entry.latency_ms));
                },
                None => {},
            }
            j += 1;
        }
        assert forall|p: (u128, i32)| #[trigger] out@.contains(p) <==> self@.heartbeats.contains_key(
            p.0,
        ) && self@.heartbeats[p.0].latency_ms == p.1 by {
            if out@.contains(p) {
                let n = choose|n: int| 0 <= n < out@.len() && out@[n] == p;
                assert(devices@.to_set().contains(devices@[n]));
            }
            if self@.heartbeats.contains_key(p.0) && self@.heartbeats[p.0].latency_ms == p.1 {
                assert(devices@.to_set().contains(p.0));
                let n = choose|n: int| 0 <= n < devices@.len() && devices@[n] == p.0;
                assert(out@[n] == p);
            }
        }
        out
    }

    /// Whether a data frame's id names a UDP session, a stream, or nothing.
    pub fn route_target(&self, id: u128) -> (r: RouteTarget)
        ensures
            r == target_of(self@, id),
    {
        if self.udp.contains_key(&id) {
            RouteTarget::Udp
        } else if self.streams.contains_key(&id) {
            RouteTarget::Stream
        } else {
            RouteTarget::Nothing
        }
    }

    /// Settles one data frame once its queue took it or refused it. A UDP
    /// datagram is dropped when the queue is full; a stream whose queue is
    /// closed or stayed full past the timeout is closed.
    pub fn settle_route(&mut self, id: u128, target: RouteTarget, sent: QueueResult, now: u64) -> (r:
        RouteOutcome)
        requires
            old(self).wf(),
        ensures
            final(self).wf(),
            r == outcome_of(id, target, sent),
            final(self)@ == after_route(old(self)@, id, target, sent, now),
    {
        match target {
            RouteTarget::Udp => match sent {
                QueueResult::Sent => {
                    self.touch_udp_session(id, now);
                    RouteOutcome::Delivered
                },
                QueueResult::Full => RouteOutcome::Dropped,
                QueueResult::Closed => {
                    self.remove_udp_session(id);
                    RouteOutcome::UdpSessionGone(id)
                },
            },
            RouteTarget::Stream => match sent {
                QueueResult::Sent => RouteOutcome::Delivered,
                QueueResult::Full => {
                    self.remove_stream_entry(id);
                    RouteOutcome::StreamSendTimeout(id)
                },
                QueueResult::Closed => {
                    self.remove_stream_entry(id);
                    RouteOutcome::StreamChannelClosed(id)
                },
            },
            RouteTarget::Nothing => RouteOutcome::Delivered,
        }
    }

    /// Decides what becomes of a datagram from a public client: it belongs to
    /// the client's session, or a session is to be opened for it, or it is
    /// dropped because the tunnel is full, the device is offline, or no data
    /// channel is bound.
    pub fn admit_datagram(
        &self,
        device_id: u128,
        tunnel_id: u128,
        peer: u64,
        max_connections: usize,
    ) -> (r: DatagramVerdict)
        requires
            self.wf(),
        ensures
            ({
                let v = self@;
                let none_free = numbers(v.peers, tunnel_id).len() >= max_connections;
                match r {
                    DatagramVerdict::Session(id) => v.peers.contains_pair((tunnel_id, peer), id),
                    DatagramVerdict::Full => !v.peers.contains_key((tunnel_id, peer)) && none_free,
                    DatagramVerdict::Offline => !v.peers.contains_key((tunnel_id, peer))
                        && !none_free && !v.sessions.contains_key(device_id),
                    DatagramVerdict::NoChannel => !v.peers.contains_key((tunnel_id, peer))
                        && !none_free && v.sessions.contains_key(device_id) && (forall|c: u16|
                        !#[trigger] eligible(v, device_id, c)),
                    DatagramVerdict::Open { connection_id, data_channel } => !v.peers.contains_key(
                        (tunnel_id, peer),
                    ) && !none_free && v.sessions.contains_pair(device_id, connection_id)
                        && best_channel(v, device_id, data_channel),
                }
            }),
            judges_datagram(self@, device_id, tunnel_id, peer, max_connections, r),
    {
        match self.udp_peer(tunnel_id, peer) {
            Some(id) => {
                return DatagramVerdict::Session(id);
            },
            None => {},
        }
        let clients = self.peers.numbers(tunnel_id);
        proof {
            clients@.unique_seq_to_set();
        }
        if clients.len() >= max_connections {
            return DatagramVerdict::Full;
        }
        let connection_id: u128 = match self.session(device_id) {
            Some(connection) => connection,
            None => {
                return DatagramVerdict::Offline;
            },
        };
        match self.pick_data_channel(device_id) {
            Some(data_channel) => DatagramVerdict::Open { connection_id, data_channel },
            None => DatagramVerdict::NoChannel,
        }
    }

    /// Notes that a datagram of a UDP session arrived and finds the data
    /// channel that carries it, with the session's control connection.
    pub fn deliver_datagram(&mut self, id: u128, device_id: u128, now: u64) -> (r: Option<
        (u16, u128),
    >)
        requires
            old(self).wf(),
        ensures
            final(self).wf(),
            final(self)@ == touched(old(self)@, id, now),
            r == carrier_of(old(self)@, id, device_id),
    {
        self.touch_udp_session(id, now);
        match self.udp_session(id) {
            None => None,
            Some(session) => {
                if self.channel(device_id, session.data_channel).is_some() {
                    Some((session.data_channel, session.connection_id))
                } else {
                    None
                }
            },
        }
    }

    /// Removes the UDP sessions of a tunnel that were idle for too long and
    /// returns their ids.
    pub fn expire_udp_sessions(&mut self, tunnel_id: u128, now: u64, idle_secs: u64) -> (r: Vec<
        u128,
    >)
        requires
            old(self).wf(),
        ensures
            final(self).wf(),
            final(self)@ == drop_udp(old(self)@, idle_udp(old(self)@, tunnel_id, now, idle_secs)),
            r@.no_duplicates(),
            r@.to_set() == idle_udp(old(self)@, tunnel_id, now, idle_secs),
    {
        let ghost p = |e: UdpSession|
            e.tunnel_id == tunnel_id && now - e.last_seen > idle_secs * SECOND;
        let keep = |e: UdpSession| -> (b: bool)
            ensures
                b == p(e),
        {
            e.tunnel_id == tunnel_id && e.last_seen <= now && (now - e.last_seen) as u128
                > idle_secs as u128 * SECOND as u128
        };
        let ids = keys_where(&self.udp, keep, Ghost(p));
        assert(ids@.to_set() =~= idle_udp(self@, tunnel_id, now, idle_secs));
        self.remove_udp_sessions(&ids);
        ids
    }

    /// Removes the UDP sessions of a tunnel whose listener stops and returns
    /// each id with its device.
    pub fn remove_tunnel_udp(&mut self, tunnel_id: u128) -> (r: Vec<(u128, u128)>)
        requires
            old(self).wf(),
        ensures
            final(self).wf(),
            final(self)@ == drop_udp(old(self)@, tunnel_udp(old(self)@, tunnel_id)),
            r@.no_duplicates(),
            forall|p: (u128, u128)| #[trigger]
                r@.contains(p) <==> tunnel_udp(old(self)@, tunnel_id).contains(p.0)
                    && old(self)@.udp[p.0].device_id == p.1,
    {
        let ghost p = |e: UdpSession| e.tunnel_id == tunnel_id;
        let keep = |e: UdpSession| -> (b: bool)
            ensures
                b == p(e),
        { e.tunnel_id == tunnel_id };
        let ids = keys_where(&self.udp, keep, Ghost(p));
        assert(ids@.to_set() =~= tunnel_udp(self@, tunnel_id));
        let out = self.with_udp_device(&ids);
        self.remove_udp_sessions(&ids);
        out
    }

    /// UDP sessions with their devices.
    fn with_udp_device(&self, ids: &Vec<u128>) -> (r: Vec<(u128, u128)>)
        requires
            ids@.no_duplicates(),
            ids@.to_set().subset_of(self@.udp.dom()),
        ensures
            r@.no_duplicates(),
            forall|p: (u128, u128)| #[trigger]
                r@.contains(p) <==> ids@.to_set().contains(p.0) && self@.udp[p.0].device_id == p.1,
    {
        let mut out: Vec<(u128, u128)> = Vec::new();
        let mut i: usize = 0;
        while i < ids.len()
            invariant
                i <= ids.len(),
                ids@.to_set().subset_of(self@.udp.dom()),
                out@.len() == i,
                forall|n: int|
                    0 <= n < i ==> #[trigger] out@[n] == (ids@[n], self@.udp[ids@[n]].device_id),
            decreases ids.len() - i,
        {
            assert(ids@.to_set().contains(ids@[i as int]));
            match self.udp_session(ids[i]) {
                Some(session) => {
                    out.push((ids[i], session.device_id));
                },
                None => {},
            }
            i += 1;
        }
        assert forall|p: (u128, u128)| #[trigger] out@.contains(p) <==> ids@.to_set().contains(p.0)
            && self@.udp[p.0].device_id == p.1 by {
            if out@.contains(p) {
                let n = choose|n: int| 0 <= n < out@.len() && out@[n] == p;
                assert(ids@[n] == p.0);
            }
            if ids@.to_set().contains(p.0) && self@.udp[p.0].device_id == p.1 {
                let n = choose|n: int| 0 <= n < ids@.len() && ids@[n] == p.0;
                assert(out@[n] == p);
            }
        }
        out
    }

    /// Streams with their devices.
    fn with_stream_device(&self, ids: &Vec<u128>) -> (r: Vec<(u128, u128)>)
        requires
            ids@.no_duplicates(),
            ids@.to_set().subset_of(self@.streams.dom()),
        ensures
            r@.no_duplicates(),
            forall|p: (u128, u128)| #[trigger]
                r@.contains(p) <==> ids@.to_set().contains(p.0) && self@.streams[p.0].device_id
                    == p.1,
    {
        let mut out: Vec<(u128, u128)> = Vec::new();
        let mut i: usize = 0;
        while i < ids.len()
            invariant
                i <= ids.len(),
                ids@.to_set().subset_of(self@.streams.dom()),
                out@.len() == i,
                forall|n: int|
                    0 <= n < i ==> #[trigger] out@[n] == (
                        ids@[n],
                        self@.streams[ids@[n]].device_id,
                    ),
            decreases ids.len() - i,
        {
            assert(ids@.to_set().contains(ids@[i as int]));
            match self.stream(ids[i]) {
                Some(entry) => {
                    out.push((ids[i], entry.device_id));
                },
                None => {},
            }
            i += 1;
        }
        assert forall|p: (u128, u128)| #[trigger] out@.contains(p) <==> ids@.to_set().contains(p.0)
            && self@.streams[p.0].device_id == p.1 by {
            if out@.contains(p) {
                let n = choose|n: int| 0 <= n < out@.len() && out@[n] == p;
                assert(ids@[n] == p.0);
            }
            if ids@.to_set().contains(p.0) && self@.streams[p.0].device_id == p.1 {
                let n = choose|n: int| 0 <= n < ids@.len() && ids@[n] == p.0;
                assert(out@[n] == p);
            }
        }
        out
    }

    /// Closes every stream and every UDP session, for shutdown. Returns the
    /// streams and the UDP sessions, each with the device to tell.
    pub fn close_all(&mut self) -> (r: (Vec<(u128, u128)>, Vec<(u128, u128)>))
        requires
            old(self).wf(),
        ensures
            final(self).wf(),
            final(self)@ == drop_udp(
                drop_streams(old(self)@, old(self)@.streams.dom()),
                old(self)@.udp.dom(),
            ),
            r.0@.no_duplicates(),
            forall|p: (u128, u128)| #[trigger]
                r.0@.contains(p) <==> old(self)@.streams.contains_key(p.0)
                    && old(self)@.streams[p.0].device_id == p.1,
            r.1@.no_duplicates(),
            forall|p: (u128, u128)| #[trigger]
                r.1@.contains(p) <==> old(self)@.udp.contains_key(p.0)
                    && old(self)@.udp[p.0].device_id == p.1,
    {
        let tcp = keys_of(&self.streams);
        let udp = keys_of(&self.udp);
        let a = self.with_stream_device(&tcp);
        let b = self.with_udp_device(&udp);
        self.remove_streams(&tcp);
        self.remove_udp_sessions(&udp);
        (a, b)
    }
}

/// The plane after a heartbeat of a device.
pub open spec fn heartbeat_noted(
    v: PlaneView,
    device_id: u128,
    connection_id: u128,
    latency_ms: u32,
    now: u64,
) -> PlaneView {
    PlaneView {
        heartbeats: v.heartbeats.insert(
            device_id,
            HeartbeatEntry {
                connection_id,
                latency_ms: signed_latency(latency_ms),
                last_seen: now,
            },
        ),
        ..v
    }
}

/// A heartbeat is flushed, with the latency it brought, until three minutes
/// after it came, and then forgotten. Heartbeats of other devices stay.
pub proof fn heartbeat_counts_for_three_minutes(
    v: PlaneView,
    device_id: u128,
    connection_id: u128,
    latency_ms: u32,
    came: u64,
    now: u64,
    other: u128,
)
    requires
        other != device_id,
        came <= now,
    ensures
        ({
            let w = heartbeat_noted(v, device_id, connection_id, latency_ms, came);
            let kept = fresh_heartbeats(w, now);
            &&& (kept.contains_key(device_id) <==> now - came <= 180_000_000_000)
            &&& kept.contains_key(device_id) ==> kept[device_id].connection_id == connection_id
                && kept[device_id].last_seen == came && (latency_ms <= 2_147_483_647
                ==> kept[device_id].latency_ms == latency_ms)
            &&& w.heartbeats.get(other) == v.heartbeats.get(other)
            &&& w.sessions == v.sessions && w.streams == v.streams && w.udp == v.udp
        }),
        fresh_heartbeats(v, now).contains_key(other) ==> fresh_heartbeats(v, now)[other]
            == v.heartbeats[other],
{
}

/// A stream that is open is found as a stream, a UDP session as a UDP session,
/// and what was closed is not found. Opening and closing concern no other id.
pub proof fn routes_follow_what_is_open(
    v: PlaneView,
    id: u128,
    e: StreamEntry,
    s: UdpSession,
    other: u128,
)
    requires
        other != id,
    ensures
        !v.udp.contains_key(id) ==> target_of(add_stream(v, id, e), id) == RouteTarget::Stream,
        target_of(add_udp(v, id, s), id) == RouteTarget::Udp,
        target_of(drop_udp(drop_streams(v, set![id]), set![id]), id) == RouteTarget::Nothing,
        target_of(add_stream(v, id, e), other) == target_of(v, other),
        target_of(add_udp(v, id, s), other) == target_of(v, other),
        target_of(drop_udp(drop_streams(v, set![id]), set![id]), other) == target_of(v, other),
{
}

/// What a frame's outcome says is what becomes of its stream. A frame that was
/// taken closes nothing, and neither does a datagram that found the queue full;
/// a stream whose queue stayed full, and whatever found its queue closed, is
/// closed, under its own id. A UDP session that took a datagram has been used.
pub proof fn outcome_tells_what_was_closed(v: PlaneView, id: u128, sent: QueueResult, now: u64)
    ensures
        ({
            let target = target_of(v, id);
            let w = after_route(v, id, target, sent, now);
            let outcome = outcome_of(id, target, sent);
            &&& (outcome == RouteOutcome::StreamSendTimeout(id) <==> target == RouteTarget::Stream
                && sent == QueueResult::Full)
            &&& (outcome == RouteOutcome::StreamChannelClosed(id) <==> target
                == RouteTarget::Stream && sent == QueueResult::Closed)
            &&& (outcome == RouteOutcome::UdpSessionGone(id) <==> target == RouteTarget::Udp
                && sent == QueueResult::Closed)
            &&& (outcome == RouteOutcome::Dropped <==> target == RouteTarget::Udp && sent
                == QueueResult::Full)
            &&& (outcome == RouteOutcome::Delivered <==> target == RouteTarget::Nothing || sent
                == QueueResult::Sent)
            &&& (outcome == RouteOutcome::Delivered || outcome == RouteOutcome::Dropped)
                ==> target_of(w, id) == target && w.streams == v.streams
            &&& (outcome != RouteOutcome::Delivered && outcome != RouteOutcome::Dropped)
                ==> target == RouteTarget::Stream && !w.streams.contains_key(id) || target
                == RouteTarget::Udp && !w.udp.contains_key(id)
            &&& target == RouteTarget::Udp && sent == QueueResult::Sent ==> w.udp[id].last_seen
                == now
        }),
{
}

/// A datagram of a session leaves on the channel that the session was given, as
/// long as that is bound, and tells which control connection it belongs to.
pub proof fn datagram_leaves_on_its_channel(
    v: PlaneView,
    id: u128,
    s: UdpSession,
    connection: u128,
    now: u64,
)
    requires
        v.channels.contains_key((s.device_id, s.data_channel as u64)),
    ensures
        carrier_of(touched(add_udp(v, id, s), id, now), id, s.device_id) == Some(
            (s.data_channel, s.connection_id),
        ),
        carrier_of(
            drop_channel(add_udp(v, id, s), (s.device_id, s.data_channel)),
            id,
            s.device_id,
        ) is None,
        carrier_of(drop_udp(add_udp(v, id, s), set![id]), id, s.device_id) is None,
{
}

/// Whether a verdict is the one on a datagram of a client.
pub open spec fn judges_datagram(
    v: PlaneView,
    device_id: u128,
    tunnel_id: u128,
    peer: u64,
    max_connections: usize,
    r: DatagramVerdict,
) -> bool {
    let none_free = numbers(v.peers, tunnel_id).len() >= max_connections;
    match r {
        DatagramVerdict::Session(id) => v.peers.contains_pair((tunnel_id, peer), id),
        DatagramVerdict::Full => !v.peers.contains_key((tunnel_id, peer)) && none_free,
        DatagramVerdict::Offline => !v.peers.contains_key((tunnel_id, peer)) && !none_free
            && !v.sessions.contains_key(device_id),
        DatagramVerdict::NoChannel => !v.peers.contains_key((tunnel_id, peer)) && !none_free
            && v.sessions.contains_key(device_id) && (forall|c: u16|
            !#[trigger] eligible(v, device_id, c)),
        DatagramVerdict::Open { connection_id, data_channel } => !v.peers.contains_key(
            (tunnel_id, peer),
        ) && !none_free && v.sessions.contains_pair(device_id, connection_id) && best_channel(
            v,
            device_id,
            data_channel,
        ),
    }
}

/// Each public client has one session: once one was opened for it, every later
/// datagram of the client belongs to it, whatever the limit. When the session
/// is gone, no datagram is taken for it, and other clients never share it.
pub proof fn one_session_per_client(
    v: PlaneView,
    id: u128,
    s: UdpSession,
    max_connections: usize,
    other_peer: u64,
    r: DatagramVerdict,
    gone: DatagramVerdict,
    other: DatagramVerdict,
)
    requires
        consistent(v),
        !v.udp.contains_key(id),
        !v.peers.contains_key((s.tunnel_id, s.peer)),
        other_peer != s.peer,
        judges_datagram(
            add_udp(v, id, s),
            s.device_id,
            s.tunnel_id,
            s.peer,
            max_connections,
            r,
        ),
        judges_datagram(
            drop_udp(add_udp(v, id, s), set![id]),
            s.device_id,
            s.tunnel_id,
            s.peer,
            max_connections,
            gone,
        ),
        judges_datagram(
            add_udp(v, id, s),
            s.device_id,
            s.tunnel_id,
            other_peer,
            max_connections,
            other,
        ),
    ensures
        r == DatagramVerdict::Session(id),
        !(gone is Session),
        other != DatagramVerdict::Session(id),
{
    let w = add_udp(v, id, s);
    assert(w.udp.contains_key(id));
    assert(peers_of(w.udp, set![id]).contains((s.tunnel_id, s.peer)));
    if v.peers.contains_key((s.tunnel_id, other_peer)) {
        assert(v.udp.contains_key(v.peers[(s.tunnel_id, other_peer)]));
    }
}

/// The verdict on a datagram is settled: one that opens a session opens it on
/// the current control connection and on one of its channels, and only while
/// the tunnel has room for another client.
pub proof fn new_client_admitted_iff_room(
    v: PlaneView,
    device_id: u128,
    tunnel_id: u128,
    peer: u64,
    max_connections: usize,
    r: DatagramVerdict,
    channel: u16,
)
    requires
        judges_datagram(v, device_id, tunnel_id, peer, max_connections, r),
        !v.peers.contains_key((tunnel_id, peer)),
    ensures
        numbers(v.peers, tunnel_id).len() >= max_connections <==> r == DatagramVerdict::Full,
        numbers(v.peers, tunnel_id).len() < max_connections && eligible(v, device_id, channel)
            ==> (r matches DatagramVerdict::Open { connection_id, data_channel } && connection_id
            == v.sessions[device_id] && eligible(v, device_id, data_channel)),
        numbers(v.peers, tunnel_id).len() < max_connections && !v.sessions.contains_key(device_id)
            ==> r == DatagramVerdict::Offline,
{
}

/// Whether a binding gives a device's new data socket its channel.
pub open spec fn binds_channel(
    v: PlaneView,
    w: PlaneView,
    device_id: u128,
    max: u16,
    r: Option<(u128, u16)>,
) -> bool {
    match r {
        None => w == v && (!v.sessions.contains_key(device_id) || numbers(
            v.channels,
            device_id,
        ).len() >= max),
        Some((connection, c)) => {
            &&& v.sessions.contains_pair(device_id, connection)
            &&& numbers(v.channels, device_id).len() < max
            &&& 1 <= c <= max
            &&& !v.channels.contains_key((device_id, c as u64))
            &&& forall|d: u16|
                1 <= d < c ==> #[trigger] v.channels.contains_key((device_id, d as u64))
            &&& w == (PlaneView {
                channels: v.channels.insert((device_id, c as u64), connection),
                ..v
            })
        },
    }
}

/// A channel that was bound may carry streams at once, and no two data sockets
/// of a device share one.
pub proof fn channels_bound_once(
    v: PlaneView,
    w: PlaneView,
    x: PlaneView,
    device_id: u128,
    max: u16,
    connection: u128,
    c: u16,
    d: u16,
)
    requires
        binds_channel(v, w, device_id, max, Some((connection, c))),
        binds_channel(w, x, device_id, max, Some((connection, d))),
    ensures
        eligible(w, device_id, c),
        eligible(x, device_id, c) && eligible(x, device_id, d),
        c < d,
        1 <= c <= max && 1 <= d <= max,
        w.streams == v.streams && w.udp == v.udp && w.loads == v.loads,
{
}

/// The number of a channel that was lost is the next to be given out, before
/// any higher one.
pub proof fn freed_number_is_reused(
    v: PlaneView,
    w: PlaneView,
    x: PlaneView,
    device_id: u128,
    max: u16,
    connection: u128,
    c: u16,
    later: u128,
    e: u16,
)
    requires
        binds_channel(v, w, device_id, max, Some((connection, c))),
        binds_channel(drop_channel(w, (device_id, c)), x, device_id, max, Some((later, e))),
    ensures
        e == c,
        later == connection,
{
    let y = drop_channel(w, (device_id, c));
    assert(!y.channels.contains_key((device_id, c as u64)));
    if e < c {
        assert(v.channels.contains_key((device_id, e as u64)));
        assert(y.channels.contains_key((device_id, e as u64)));
    }
}

/// What is left of a device that was evicted.
pub open spec fn evicted(v: PlaneView, device_id: u128) -> PlaneView {
    if v.sessions.contains_key(device_id) {
        let connection = v.sessions[device_id];
        let w = teardown(v, device_id, connection);
        let x = drop_udp(w, connection_udp(w, device_id, connection));
        PlaneView { sessions: x.sessions.remove(device_id), ..x }
    } else {
        v
    }
}

/// A device that was evicted is offline and has no channel that could carry
/// anything, and no UDP session of its connection. No other device is offline
/// for it.
pub proof fn evicted_device_is_offline(
    v: PlaneView,
    device_id: u128,
    other: u128,
    channel: u16,
    id: u128,
)
    requires
        other != device_id,
    ensures
        !evicted(v, device_id).sessions.contains_key(device_id),
        !eligible(evicted(v, device_id), device_id, channel),
        evicted(v, device_id).sessions.get(other) == v.sessions.get(other),
        eligible(evicted(v, device_id), other, channel) == eligible(v, other, channel),
        v.sessions.contains_key(device_id) && v.udp.contains_key(id) && v.udp[id].device_id
            == device_id && v.udp[id].connection_id == v.sessions[device_id] ==> !evicted(
            v,
            device_id,
        ).udp.contains_key(id),
        v.streams.contains_key(id) && v.streams[id].device_id == other ==> evicted(
            v,
            device_id,
        ).streams.contains_pair(id, v.streams[id]),
{
}

/// The sessions after a connection of a device has ended.
pub open spec fn without_owned(
    sessions: Map<u128, u128>,
    device_id: u128,
    connection_id: u128,
) -> Map<u128, u128> {
    if sessions.contains_pair(device_id, connection_id) {
        sessions.remove(device_id)
    } else {
        sessions
    }
}

/// The signs of life after a connection of a device has ended.
pub open spec fn without_own_beat(
    heartbeats: Map<u128, HeartbeatEntry>,
    device_id: u128,
    connection_id: u128,
) -> Map<u128, HeartbeatEntry> {
    if heartbeats.contains_key(device_id) && heartbeats[device_id].connection_id == connection_id {
        heartbeats.remove(device_id)
    } else {
        heartbeats
    }
}

/// A connection that ends takes its own session and its own sign of life with
/// it, and never those of a newer connection or of another device.
pub proof fn ended_connection_spares_newer(
    sessions: Map<u128, u128>,
    heartbeats: Map<u128, HeartbeatEntry>,
    device_id: u128,
    connection_id: u128,
    newer: u128,
    beat: HeartbeatEntry,
    other: u128,
)
    requires
        newer != connection_id,
        other != device_id,
    ensures
        !without_owned(
            sessions.insert(device_id, connection_id),
            device_id,
            connection_id,
        ).contains_key(device_id),
        without_owned(sessions.insert(device_id, newer), device_id, connection_id)
            == sessions.insert(device_id, newer),
        without_owned(sessions, device_id, connection_id).get(other) == sessions.get(other),
        beat.connection_id == connection_id ==> !without_own_beat(
            heartbeats.insert(device_id, beat),
            device_id,
            connection_id,
        ).contains_key(device_id),
        beat.connection_id == newer ==> without_own_beat(
            heartbeats.insert(device_id, beat),
            device_id,
            connection_id,
        ) == heartbeats.insert(device_id, beat),
        without_own_beat(heartbeats, device_id, connection_id).get(other) == heartbeats.get(other),
{
}

/// The plane with one more on a channel.
pub open spec fn load_raised(v: PlaneView, device_id: u128, channel_id: u16) -> PlaneView {
    PlaneView {
        loads: v.loads.insert(
            (device_id, channel_id),
            one_more(v.loads[(device_id, channel_id)]),
        ),
        ..v
    }
}

/// The plane with one less on a channel.
pub open spec fn load_lowered(v: PlaneView, device_id: u128, channel_id: u16) -> PlaneView {
    PlaneView {
        loads: v.loads.insert(
            (device_id, channel_id),
            lessened(v.loads[(device_id, channel_id)], 1),
        ),
        ..v
    }
}

/// Raising a load adds one, lowering it undoes that, and neither concerns any
/// other channel.
pub proof fn raised_load_is_lowered(v: PlaneView, d: u128, c: u16, other: (u128, u16))
    requires
        v.loads[(d, c)] < usize::MAX,
        other != (d, c),
    ensures
        load_raised(v, d, c).loads[(d, c)] == v.loads[(d, c)] + 1,
        load_lowered(load_raised(v, d, c), d, c).loads[(d, c)] == v.loads[(d, c)],
        v.loads[(d, c)] == 0 ==> load_lowered(v, d, c).loads[(d, c)] == 0,
        load_raised(v, d, c).loads[other] == v.loads[other],
        load_lowered(v, d, c).loads[other] == v.loads[other],
        load_raised(v, d, c).streams == v.streams && load_lowered(v, d, c).streams == v.streams,
{
}

} // verus!
