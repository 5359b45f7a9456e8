//! The data plane as mathematics: what is open, on which channel, and how each
//! operation changes it.

use vstd::prelude::*;

verus! {

/// Frames one stream may have waiting in its data channel's shared writer
/// queue. The bound keeps one bulk stream from delaying the other streams on
/// the channel.
pub const STREAM_CHANNEL_QUOTA: usize = 16;

/// Nanoseconds in one second.
pub const SECOND: u64 = 1_000_000_000;

/// Heartbeats older than this many seconds are dropped: three missed heartbeats
/// at the slowest rate an agent may be set to.
pub const HEARTBEAT_STALE_SECS: u64 = 180;

/// A live TCP stream, the data channel it was assigned to, and how many of its
/// frames wait in that channel's queue.
#[derive(Debug, Clone, Copy, PartialEq, Eq, Structural)]
pub struct StreamEntry {
    pub device_id: u128,
    pub tunnel_id: u128,
    pub data_channel: u16,
    pub outstanding: usize,
}

/// A live UDP mapping between one public client and the agent's local service.
/// Times are nanoseconds on the server's own clock.
#[derive(Debug, Clone, Copy, PartialEq, Eq, Structural)]
pub struct UdpSession {
    pub device_id: u128,
    pub connection_id: u128,
    pub tunnel_id: u128,
    pub data_channel: u16,
    pub peer: u64,
    pub last_seen: u64,
}

/// The latest heartbeat of a control session.
#[derive(Debug, Clone, Copy, PartialEq, Eq, Structural)]
pub struct HeartbeatEntry {
    pub connection_id: u128,
    pub latency_ms: i32,
    pub last_seen: u64,
}

/// The state of the data plane. `loads` gives a count for every channel of
/// every device; the keys of `peers` are a tunnel and a client address, those
/// of `channels` a device and a channel number.
#[verifier::ext_equal]
pub struct PlaneView {
    pub sessions: Map<u128, u128>,
    pub streams: Map<u128, StreamEntry>,
    pub udp: Map<u128, UdpSession>,
    pub loads: Map<(u128, u16), usize>,
    pub peers: Map<(u128, u64), u128>,
    pub channels: Map<(u128, u64), u128>,
    pub heartbeats: Map<u128, HeartbeatEntry>,
}

/// A plane with nothing open.
pub open spec fn empty_plane() -> PlaneView {
    PlaneView {
        sessions: Map::empty(),
        streams: Map::empty(),
        udp: Map::empty(),
        loads: Map::total(|k: (u128, u16)| 0usize),
        peers: Map::empty(),
        channels: Map::empty(),
        heartbeats: Map::empty(),
    }
}

/// One less for each of `n`, but never below zero.
pub open spec fn lessened(load: usize, n: nat) -> usize {
    if n >= load {
        0
    } else {
        (load - n) as usize
    }
}

/// Whether a stream is carried by a channel.
pub open spec fn stream_on(e: StreamEntry, k: (u128, u16)) -> bool {
    e.device_id == k.0 && e.data_channel == k.1
}

/// Whether a UDP session is carried by a channel.
pub open spec fn udp_on(e: UdpSession, k: (u128, u16)) -> bool {
    e.device_id == k.0 && e.data_channel == k.1
}

/// Those of the given streams that a channel carries.
pub open spec fn streams_among(
    streams: Map<u128, StreamEntry>,
    ids: Set<u128>,
    k: (u128, u16),
) -> Set<u128> {
    ids.filter(|id: u128| streams.contains_key(id) && stream_on(streams[id], k))
}

/// Those of the given UDP sessions that a channel carries.
pub open spec fn udp_among(
    udp: Map<u128, UdpSession>,
    ids: Set<u128>,
    k: (u128, u16),
) -> Set<u128> {
    ids.filter(|id: u128| udp.contains_key(id) && udp_on(udp[id], k))
}

/// Removes streams and takes each off its channel's load.
pub open spec fn drop_streams(v: PlaneView, ids: Set<u128>) -> PlaneView {
    PlaneView {
        streams: v.streams.remove_keys(ids),
        loads: Map::total(
            |k: (u128, u16)| lessened(v.loads[k], streams_among(v.streams, ids, k).len()),
        ),
        ..v
    }
}

/// The index entries of the given UDP sessions.
pub open spec fn peers_of(udp: Map<u128, UdpSession>, ids: Set<u128>) -> Set<(u128, u64)> {
    Set::new(
        |p: (u128, u64)|
            exists|id: u128|
                ids.contains(id) && #[trigger] udp.contains_key(id) && udp[id].tunnel_id == p.0
                    && udp[id].peer == p.1,
    )
}

/// Removes UDP sessions, their index entries, and takes each off its channel's
/// load.
pub open spec fn drop_udp(v: PlaneView, ids: Set<u128>) -> PlaneView {
    PlaneView {
        udp: v.udp.remove_keys(ids),
        loads: Map::total(
            |k: (u128, u16)| lessened(v.loads[k], udp_among(v.udp, ids, k).len()),
        ),
        peers: v.peers.remove_keys(peers_of(v.udp, ids)),
        ..v
    }
}

/// The load after one more arrival.
pub open spec fn one_more(load: usize) -> usize {
    if load == usize::MAX {
        0
    } else {
        (load + 1) as usize
    }
}

/// Adds a stream to its channel.
pub open spec fn add_stream(v: PlaneView, id: u128, e: StreamEntry) -> PlaneView {
    let k = (e.device_id, e.data_channel);
    PlaneView {
        streams: v.streams.insert(id, e),
        loads: v.loads.insert(k, one_more(v.loads[k])),
        ..v
    }
}

/// Adds a UDP session to its channel and to the index.
pub open spec fn add_udp(v: PlaneView, id: u128, e: UdpSession) -> PlaneView {
    let k = (e.device_id, e.data_channel);
    PlaneView {
        udp: v.udp.insert(id, e),
        loads: v.loads.insert(k, one_more(v.loads[k])),
        peers: v.peers.insert((e.tunnel_id, e.peer), id),
        ..v
    }
}

/// The live streams of one tunnel of one device.
pub open spec fn tunnel_streams(v: PlaneView, device: u128, tunnel: u128) -> Set<u128> {
    v.streams.dom().filter(
        |id: u128| v.streams[id].device_id == device && v.streams[id].tunnel_id == tunnel,
    )
}

/// The live UDP sessions of one tunnel.
pub open spec fn tunnel_udp(v: PlaneView, tunnel: u128) -> Set<u128> {
    v.udp.dom().filter(|id: u128| v.udp[id].tunnel_id == tunnel)
}

/// The live UDP sessions of one control connection.
pub open spec fn connection_udp(v: PlaneView, device: u128, connection: u128) -> Set<u128> {
    v.udp.dom().filter(
        |id: u128| v.udp[id].device_id == device && v.udp[id].connection_id == connection,
    )
}

/// The UDP sessions of a tunnel that were idle for more than `idle_secs`.
pub open spec fn idle_udp(v: PlaneView, tunnel: u128, now: u64, idle_secs: u64) -> Set<u128> {
    v.udp.dom().filter(
        |id: u128|
            v.udp[id].tunnel_id == tunnel && now - v.udp[id].last_seen > idle_secs * SECOND,
    )
}

/// The streams of one channel.
pub open spec fn channel_streams(v: PlaneView, k: (u128, u16)) -> Set<u128> {
    streams_among(v.streams, v.streams.dom(), k)
}

/// The UDP sessions of one channel.
pub open spec fn channel_udp(v: PlaneView, k: (u128, u16)) -> Set<u128> {
    udp_among(v.udp, v.udp.dom(), k)
}

/// Removes everything that one channel carries.
pub open spec fn close_channel(v: PlaneView, k: (u128, u16)) -> PlaneView {
    let w = drop_streams(v, channel_streams(v, k));
    drop_udp(w, channel_udp(w, k))
}

/// Removes one channel and everything that it carries.
pub open spec fn drop_channel(v: PlaneView, k: (u128, u16)) -> PlaneView {
    let w = close_channel(v, k);
    PlaneView { channels: w.channels.remove((k.0, k.1 as u64)), ..w }
}

/// Whether a channel may carry new streams of a device: it is bound to the
/// device's current control session.
pub open spec fn eligible(v: PlaneView, device: u128, channel: u16) -> bool {
    &&& v.sessions.contains_key(device)
    &&& v.channels.contains_key((device, channel as u64))
    &&& v.channels[(device, channel as u64)] == v.sessions[device]
}

/// Whether a channel is the one for the next stream of a device: it carries
/// the least, and of those that carry the least it has the lowest number.
pub open spec fn best_channel(v: PlaneView, device: u128, channel: u16) -> bool {
    &&& eligible(v, device, channel)
    &&& forall|other: u16| #[trigger]
        eligible(v, device, other) ==> v.loads[(device, channel)] < v.loads[(device, other)] || (
        v.loads[(device, channel)] == v.loads[(device, other)] && channel <= other)
}

/// Whether each channel's load counts the streams and UDP sessions that the
/// channel carries.
pub open spec fn loads_counted(v: PlaneView) -> bool {
    &&& v.streams.dom().finite()
    &&& v.udp.dom().finite()
    &&& forall|k: (u128, u16)| #[trigger]
        v.loads[k] == channel_streams(v, k).len() + channel_udp(v, k).len()
}

/// Everything the plane's operations keep: each channel's load counts what the
/// channel carries, the index finds each UDP session by its tunnel and client,
/// and it finds nothing else.
pub open spec fn consistent(v: PlaneView) -> bool {
    &&& loads_counted(v)
    &&& forall|id: u128| #[trigger]
        v.udp.contains_key(id) ==> v.peers.contains_pair(
            (v.udp[id].tunnel_id, v.udp[id].peer),
            id,
        )
    &&& forall|p: (u128, u64)| #[trigger]
        v.peers.contains_key(p) ==> v.udp.contains_key(v.peers[p])
            && v.udp[v.peers[p]].tunnel_id == p.0 && v.udp[v.peers[p]].peer == p.1
}

pub proof fn lemma_among_insert(streams: Map<u128, StreamEntry>, ids: Set<u128>, id: u128, k: (
    u128,
    u16,
))
    requires
        ids.finite(),
        !ids.contains(id),
    ensures
        streams_among(streams, ids.insert(id), k).len() == streams_among(streams, ids, k).len()
            + streams_among(streams.remove_keys(ids), set![id], k).len(),
{
    let one = streams_among(streams.remove_keys(ids), set![id], k);
    if streams.contains_key(id) && stream_on(streams[id], k) {
        assert(streams_among(streams, ids.insert(id), k) =~= streams_among(streams, ids, k).insert(
            id,
        ));
        assert(one =~= set![id]);
    } else {
        assert(streams_among(streams, ids.insert(id), k) =~= streams_among(streams, ids, k));
        assert(one =~= Set::empty());
    }
}

/// Removing streams one after another is removing them all.
pub proof fn lemma_drop_streams_step(v: PlaneView, ids: Set<u128>, id: u128)
    requires
        ids.finite(),
        !ids.contains(id),
    ensures
        drop_streams(drop_streams(v, ids), set![id]) == drop_streams(v, ids.insert(id)),
{
    let w = drop_streams(v, ids);
    let a = drop_streams(w, set![id]);
    let b = drop_streams(v, ids.insert(id));
    assert(a.streams =~= b.streams);
    assert forall|k: (u128, u16)| a.loads[k] == b.loads[k] by {
        lemma_among_insert(v.streams, ids, id, k);
    }
    assert(a.loads =~= b.loads);
}

pub proof fn lemma_drop_streams_none(v: PlaneView)
    requires
        v.loads.dom() == Set::<(u128, u16)>::full(),
    ensures
        drop_streams(v, Set::empty()) == v,
{
    let w = drop_streams(v, Set::empty());
    assert(w.streams =~= v.streams);
    assert forall|k: (u128, u16)| w.loads[k] == v.loads[k] by {
        assert(streams_among(v.streams, Set::empty(), k) =~= Set::empty());
    }
    assert(w.loads =~= v.loads);
}

pub proof fn lemma_udp_among_insert(udp: Map<u128, UdpSession>, ids: Set<u128>, id: u128, k: (
    u128,
    u16,
))
    requires
        ids.finite(),
        !ids.contains(id),
    ensures
        udp_among(udp, ids.insert(id), k).len() == udp_among(udp, ids, k).len() + udp_among(
            udp.remove_keys(ids),
            set![id],
            k,
        ).len(),
{
    let one = udp_among(udp.remove_keys(ids), set![id], k);
    if udp.contains_key(id) && udp_on(udp[id], k) {
        assert(udp_among(udp, ids.insert(id), k) =~= udp_among(udp, ids, k).insert(id));
        assert(one =~= set![id]);
    } else {
        assert(udp_among(udp, ids.insert(id), k) =~= udp_among(udp, ids, k));
        assert(one =~= Set::empty());
    }
}

/// Removing UDP sessions one after another is removing them all.
pub proof fn lemma_drop_udp_step(v: PlaneView, ids: Set<u128>, id: u128)
    requires
        ids.finite(),
        !ids.contains(id),
    ensures
        drop_udp(drop_udp(v, ids), set![id]) == drop_udp(v, ids.insert(id)),
{
    let w = drop_udp(v, ids);
    let a = drop_udp(w, set![id]);
    let b = drop_udp(v, ids.insert(id));
    assert(a.udp =~= b.udp);
    assert forall|k: (u128, u16)| a.loads[k] == b.loads[k] by {
        lemma_udp_among_insert(v.udp, ids, id, k);
    }
    assert(a.loads =~= b.loads);
    assert forall|p: (u128, u64)|
        peers_of(v.udp, ids.insert(id)).contains(p) == (peers_of(v.udp, ids).contains(p)
            || peers_of(w.udp, set![id]).contains(p)) by {
        if peers_of(v.udp, ids.insert(id)).contains(p) {
            let j = choose|j: u128|
                ids.insert(id).contains(j) && #[trigger] v.udp.contains_key(j)
                    && v.udp[j].tunnel_id == p.0 && v.udp[j].peer == p.1;
            if j == id {
                assert(w.udp.contains_key(id));
            } else {
                assert(v.udp.contains_key(j) && ids.contains(j));
            }
        }
        if peers_of(v.udp, ids).contains(p) {
            let j = choose|j: u128|
                ids.contains(j) && #[trigger] v.udp.contains_key(j) && v.udp[j].tunnel_id == p.0
                    && v.udp[j].peer == p.1;
            assert(ids.insert(id).contains(j));
        }
        if peers_of(w.udp, set![id]).contains(p) {
            assert(w.udp.contains_key(id));
            assert(v.udp.contains_key(id));
        }
    }
    assert(a.peers =~= b.peers);
}

pub proof fn lemma_drop_udp_none(v: PlaneView)
    requires
        v.loads.dom() == Set::<(u128, u16)>::full(),
    ensures
        drop_udp(v, Set::empty()) == v,
{
    let w = drop_udp(v, Set::empty());
    assert(w.udp =~= v.udp);
    assert forall|k: (u128, u16)| w.loads[k] == v.loads[k] by {
        assert(udp_among(v.udp, Set::empty(), k) =~= Set::empty());
    }
    assert(w.loads =~= v.loads);
    assert(w.peers =~= v.peers);
}

proof fn lemma_filter_split(s: Set<u128>, out: Set<u128>, f: spec_fn(u128) -> bool)
    requires
        s.finite(),
    ensures
        s.filter(f).len() == s.difference(out).filter(f).len() + out.intersect(s).filter(f).len(),
        s.difference(out).filter(f).finite(),
        out.intersect(s).filter(f).finite(),
{
    let a = s.difference(out).filter(f);
    let b = out.intersect(s).filter(f);
    assert(a.union(b) =~= s.filter(f));
    assert(b =~= s.filter(f).intersect(out));
    vstd::set_lib::lemma_set_disjoint_lens(a, b);
}

proof fn lemma_drop_streams_counted(v: PlaneView, ids: Set<u128>)
    requires
        loads_counted(v),
    ensures
        loads_counted(drop_streams(v, ids)),
{
    let w = drop_streams(v, ids);
    assert(w.streams.dom() =~= v.streams.dom().difference(ids));
    assert forall|k: (u128, u16)| #[trigger]
        w.loads[k] == channel_streams(w, k).len() + channel_udp(w, k).len() by {
        assert(v.loads[k] == channel_streams(v, k).len() + channel_udp(v, k).len());
        let f = |id: u128| v.streams.contains_key(id) && stream_on(v.streams[id], k);
        lemma_filter_split(v.streams.dom(), ids, f);
        assert(channel_streams(w, k) =~= v.streams.dom().difference(ids).filter(f));
        assert(streams_among(v.streams, ids, k) =~= ids.intersect(v.streams.dom()).filter(f));
        assert(channel_udp(w, k) =~= channel_udp(v, k));
    }
}

/// Removing streams keeps the plane consistent.
pub proof fn drop_streams_keeps_consistent(v: PlaneView, ids: Set<u128>)
    requires
        consistent(v),
    ensures
        consistent(drop_streams(v, ids)),
{
    lemma_drop_streams_counted(v, ids);
}

proof fn lemma_drop_udp_counted(v: PlaneView, ids: Set<u128>)
    requires
        loads_counted(v),
    ensures
        loads_counted(drop_udp(v, ids)),
{
    let w = drop_udp(v, ids);
    assert(w.udp.dom() =~= v.udp.dom().difference(ids));
    assert forall|k: (u128, u16)| #[trigger]
        w.loads[k] == channel_streams(w, k).len() + channel_udp(w, k).len() by {
        assert(v.loads[k] == channel_streams(v, k).len() + channel_udp(v, k).len());
        let f = |id: u128| v.udp.contains_key(id) && udp_on(v.udp[id], k);
        lemma_filter_split(v.udp.dom(), ids, f);
        assert(channel_udp(w, k) =~= v.udp.dom().difference(ids).filter(f));
        assert(udp_among(v.udp, ids, k) =~= ids.intersect(v.udp.dom()).filter(f));
        assert(channel_streams(w, k) =~= channel_streams(v, k));
    }
}

/// Removing UDP sessions keeps the plane consistent.
pub proof fn drop_udp_keeps_consistent(v: PlaneView, ids: Set<u128>)
    requires
        consistent(v),
    ensures
        consistent(drop_udp(v, ids)),
{
    let w = drop_udp(v, ids);
    lemma_drop_udp_counted(v, ids);
    assert forall|id: u128| #[trigger] w.udp.contains_key(id) implies w.peers.contains_pair(
        (w.udp[id].tunnel_id, w.udp[id].peer),
        id,
    ) by {
        let p = (v.udp[id].tunnel_id, v.udp[id].peer);
        assert(v.udp.contains_key(id));
        if peers_of(v.udp, ids).contains(p) {
            let j = choose|j: u128|
                ids.contains(j) && #[trigger] v.udp.contains_key(j) && v.udp[j].tunnel_id == p.0
                    && v.udp[j].peer == p.1;
            assert(v.peers.contains_pair((v.udp[j].tunnel_id, v.udp[j].peer), j));
            assert(false);
        }
    }
    assert forall|p: (u128, u64)| #[trigger] w.peers.contains_key(p) implies w.udp.contains_key(
        w.peers[p],
    ) && w.udp[w.peers[p]].tunnel_id == p.0 && w.udp[w.peers[p]].peer == p.1 by {
        assert(v.peers.contains_key(p));
        let id = v.peers[p];
        assert(v.udp.contains_key(id));
        assert(!ids.contains(id));
    }
}

proof fn lemma_add_stream_counted(v: PlaneView, id: u128, e: StreamEntry)
    requires
        loads_counted(v),
        !v.streams.contains_key(id),
        v.loads[(e.device_id, e.data_channel)] < usize::MAX,
    ensures
        loads_counted(add_stream(v, id, e)),
{
    let w = add_stream(v, id, e);
    assert forall|k: (u128, u16)| #[trigger]
        w.loads[k] == channel_streams(w, k).len() + channel_udp(w, k).len() by {
        assert(v.loads[k] == channel_streams(v, k).len() + channel_udp(v, k).len());
        assert(channel_udp(w, k) =~= channel_udp(v, k));
        if stream_on(e, k) {
            assert(channel_streams(w, k) =~= channel_streams(v, k).insert(id));
        } else {
            assert(channel_streams(w, k) =~= channel_streams(v, k));
        }
    }
}

/// Opening a stream under an unused id keeps the plane consistent, as long as
/// the load still fits its counter.
pub proof fn add_stream_keeps_consistent(v: PlaneView, id: u128, e: StreamEntry)
    requires
        consistent(v),
        !v.streams.contains_key(id),
        v.loads[(e.device_id, e.data_channel)] < usize::MAX,
    ensures
        consistent(add_stream(v, id, e)),
{
    lemma_add_stream_counted(v, id, e);
}

proof fn lemma_add_udp_counted(v: PlaneView, id: u128, e: UdpSession)
    requires
        loads_counted(v),
        !v.udp.contains_key(id),
        v.loads[(e.device_id, e.data_channel)] < usize::MAX,
    ensures
        loads_counted(add_udp(v, id, e)),
{
    let w = add_udp(v, id, e);
    assert forall|k: (u128, u16)| #[trigger]
        w.loads[k] == channel_streams(w, k).len() + channel_udp(w, k).len() by {
        assert(v.loads[k] == channel_streams(v, k).len() + channel_udp(v, k).len());
        assert(channel_streams(w, k) =~= channel_streams(v, k));
        if udp_on(e, k) {
            assert(channel_udp(w, k) =~= channel_udp(v, k).insert(id));
        } else {
            assert(channel_udp(w, k) =~= channel_udp(v, k));
        }
    }
}

/// Opening a UDP session under an unused id, for a client that the tunnel has
/// no session for, keeps the plane consistent, as long as the load still fits
/// its counter.
pub proof fn add_udp_keeps_consistent(v: PlaneView, id: u128, e: UdpSession)
    requires
        consistent(v),
        !v.udp.contains_key(id),
        !v.peers.contains_key((e.tunnel_id, e.peer)),
        v.loads[(e.device_id, e.data_channel)] < usize::MAX,
    ensures
        consistent(add_udp(v, id, e)),
{
    let w = add_udp(v, id, e);
    lemma_add_udp_counted(v, id, e);
    assert forall|j: u128| #[trigger] w.udp.contains_key(j) implies w.peers.contains_pair(
        (w.udp[j].tunnel_id, w.udp[j].peer),
        j,
    ) by {
        if j != id {
            assert(v.udp.contains_key(j));
        }
    }
    assert forall|p: (u128, u64)| #[trigger] w.peers.contains_key(p) implies w.udp.contains_key(
        w.peers[p],
    ) && w.udp[w.peers[p]].tunnel_id == p.0 && w.udp[w.peers[p]].peer == p.1 by {
        if p != (e.tunnel_id, e.peer) {
            assert(v.peers.contains_key(p));
        }
    }
}

/// A plane with nothing open is consistent.
pub proof fn empty_plane_consistent()
    ensures
        consistent(empty_plane()),
{
    let v = empty_plane();
    assert forall|k: (u128, u16)| #[trigger]
        v.loads[k] == channel_streams(v, k).len() + channel_udp(v, k).len() by {
        assert(channel_streams(v, k) =~= Set::empty());
        assert(channel_udp(v, k) =~= Set::empty());
    }
}

/// Removing a channel keeps the plane consistent and leaves the channel with
/// no load.
pub proof fn drop_channel_keeps_consistent(v: PlaneView, k: (u128, u16))
    requires
        consistent(v),
    ensures
        consistent(close_channel(v, k)),
        consistent(drop_channel(v, k)),
        close_channel(v, k).loads[k] == 0,
{
    let a = channel_streams(v, k);
    let w = drop_streams(v, a);
    drop_streams_keeps_consistent(v, a);
    let b = channel_udp(w, k);
    drop_udp_keeps_consistent(w, b);
    let x = close_channel(v, k);
    let y = drop_channel(v, k);
    assert(channel_streams(x, k) =~= Set::empty());
    assert(channel_udp(x, k) =~= Set::empty());
    assert(x.loads[k] == channel_streams(x, k).len() + channel_udp(x, k).len());
    assert forall|j: (u128, u16)| #[trigger]
        y.loads[j] == channel_streams(y, j).len() + channel_udp(y, j).len() by {
        assert(x.loads[j] == channel_streams(x, j).len() + channel_udp(x, j).len());
        assert(channel_streams(y, j) =~= channel_streams(x, j));
        assert(channel_udp(y, j) =~= channel_udp(x, j));
    }
}

/// One change of what is open.
pub enum Change {
    OpenStream { id: u128, entry: StreamEntry },
    CloseStream { id: u128 },
    OpenUdp { id: u128, session: UdpSession },
    CloseUdp { id: u128 },
    CloseChannel { channel: (u128, u16) },
}

/// What a change makes of a plane.
pub open spec fn changed(v: PlaneView, c: Change) -> PlaneView {
    match c {
        Change::OpenStream { id, entry } => add_stream(v, id, entry),
        Change::CloseStream { id } => drop_streams(v, set![id]),
        Change::OpenUdp { id, session } => add_udp(v, id, session),
        Change::CloseUdp { id } => drop_udp(v, set![id]),
        Change::CloseChannel { channel } => close_channel(v, channel),
    }
}

/// Whether a change opens nothing, or something under an unused id on a channel
/// whose load still fits its counter.
pub open spec fn change_fits(v: PlaneView, c: Change) -> bool {
    match c {
        Change::OpenStream { id, entry } => !v.streams.contains_key(id) && v.loads[(
            entry.device_id,
            entry.data_channel,
        )] < usize::MAX,
        Change::OpenUdp { id, session } => !v.udp.contains_key(id) && v.loads[(
            session.device_id,
            session.data_channel,
        )] < usize::MAX,
        _ => true,
    }
}

/// The plane after changes, one after the other, of one with nothing open.
pub open spec fn plane_after(changes: Seq<Change>) -> PlaneView
    decreases changes.len(),
{
    if changes.len() == 0 {
        empty_plane()
    } else {
        changed(plane_after(changes.drop_last()), changes.last())
    }
}

/// Whatever was opened and closed, in whatever order, each channel's load is
/// the number of live streams and UDP sessions that the channel carries.
pub proof fn loads_count_what_is_open(changes: Seq<Change>)
    requires
        forall|i: int|
            0 <= i < changes.len() ==> change_fits(
                plane_after(changes.take(i)),
                #[trigger] changes[i],
            ),
    ensures
        loads_counted(plane_after(changes)),
    decreases changes.len(),
{
    if changes.len() == 0 {
        empty_plane_consistent();
    } else {
        let before = changes.drop_last();
        assert forall|i: int| 0 <= i < before.len() implies change_fits(
            plane_after(before.take(i)),
            #[trigger] before[i],
        ) by {
            assert(before.take(i) =~= changes.take(i));
            assert(before[i] == changes[i]);
        }
        loads_count_what_is_open(before);
        let v = plane_after(before);
        assert(changes.take(changes.len() - 1) =~= before);
        assert(change_fits(v, changes[changes.len() - 1]));
        match changes.last() {
            Change::OpenStream { id, entry } => lemma_add_stream_counted(v, id, entry),
            Change::CloseStream { id } => lemma_drop_streams_counted(v, set![id]),
            Change::OpenUdp { id, session } => lemma_add_udp_counted(v, id, session),
            Change::CloseUdp { id } => lemma_drop_udp_counted(v, set![id]),
            Change::CloseChannel { channel } => {
                let w = drop_streams(v, channel_streams(v, channel));
                lemma_drop_streams_counted(v, channel_streams(v, channel));
                lemma_drop_udp_counted(w, channel_udp(w, channel));
            },
        }
    }
}

/// Closing one channel leaves every stream, UDP session and load of every
/// other channel as it was, and leaves none on the closed one.
pub proof fn close_channel_preserves_others(v: PlaneView, k: (u128, u16))
    ensures
        forall|id: u128| #[trigger]
            v.streams.contains_key(id) && !stream_on(v.streams[id], k)
                ==> close_channel(v, k).streams.contains_pair(id, v.streams[id]),
        forall|id: u128| #[trigger]
            v.udp.contains_key(id) && !udp_on(v.udp[id], k) ==> close_channel(
                v,
                k,
            ).udp.contains_pair(id, v.udp[id]),
        forall|id: u128| #[trigger]
            close_channel(v, k).streams.contains_key(id) ==> v.streams.contains_pair(
                id,
                close_channel(v, k).streams[id],
            ) && !stream_on(v.streams[id], k),
        forall|id: u128| #[trigger]
            close_channel(v, k).udp.contains_key(id) ==> v.udp.contains_pair(
                id,
                close_channel(v, k).udp[id],
            ) && !udp_on(v.udp[id], k),
        forall|j: (u128, u16)| j != k ==> #[trigger] close_channel(v, k).loads[j] == v.loads[j],
        close_channel(v, k).sessions == v.sessions,
        close_channel(v, k).channels == v.channels,
        close_channel(v, k).heartbeats == v.heartbeats,
{
    let a = channel_streams(v, k);
    let w = drop_streams(v, a);
    let b = channel_udp(w, k);
    let x = close_channel(v, k);
    assert forall|j: (u128, u16)| j != k implies #[trigger] x.loads[j] == v.loads[j] by {
        assert(streams_among(v.streams, a, j) =~= Set::empty());
        assert(udp_among(w.udp, b, j) =~= Set::empty());
    }
}

/// The streams on channels bound to one control connection.
pub open spec fn bound_streams(v: PlaneView, device: u128, connection: u128) -> Set<u128> {
    v.streams.dom().filter(
        |id: u128|
            v.streams[id].device_id == device && v.channels.contains_pair(
                (device, v.streams[id].data_channel as u64),
                connection,
            ),
    )
}

/// The UDP sessions on channels bound to one control connection.
pub open spec fn bound_udp(v: PlaneView, device: u128, connection: u128) -> Set<u128> {
    v.udp.dom().filter(
        |id: u128|
            v.udp[id].device_id == device && v.channels.contains_pair(
                (device, v.udp[id].data_channel as u64),
                connection,
            ),
    )
}

/// The channels bound to one control connection.
pub open spec fn bound_channels(v: PlaneView, device: u128, connection: u128) -> Set<(u128, u64)> {
    Set::new(|k: (u128, u64)| k.0 == device && v.channels.contains_pair(k, connection))
}

/// Removes the channels of one control connection and everything they carry.
pub open spec fn teardown(v: PlaneView, device: u128, connection: u128) -> PlaneView {
    let w = drop_udp(
        drop_streams(v, bound_streams(v, device, connection)),
        bound_udp(v, device, connection),
    );
    PlaneView { channels: v.channels.remove_keys(bound_channels(v, device, connection)), ..w }
}

/// What is left when a control connection has ended: its session and heartbeat
/// are gone unless a newer connection holds them, and so are its UDP sessions
/// and its channels with everything they carried.
pub open spec fn control_ended(v: PlaneView, device: u128, connection: u128) -> PlaneView {
    let w = PlaneView {
        sessions: if v.sessions.contains_pair(device, connection) {
            v.sessions.remove(device)
        } else {
            v.sessions
        },
        heartbeats: if v.heartbeats.contains_key(device) && v.heartbeats[device].connection_id
            == connection {
            v.heartbeats.remove(device)
        } else {
            v.heartbeats
        },
        ..v
    };
    teardown(drop_udp(w, connection_udp(v, device, connection)), device, connection)
}

/// A change to sessions, channels or heartbeats alone keeps the plane
/// consistent.
pub proof fn other_parts_keep_consistent(v: PlaneView, w: PlaneView)
    requires
        consistent(v),
        w.streams == v.streams,
        w.udp == v.udp,
        w.loads == v.loads,
        w.peers == v.peers,
    ensures
        consistent(w),
{
    assert forall|k: (u128, u16)| #[trigger]
        w.loads[k] == channel_streams(w, k).len() + channel_udp(w, k).len() by {
        assert(v.loads[k] == channel_streams(v, k).len() + channel_udp(v, k).len());
    }
    assert forall|id: u128| #[trigger] w.udp.contains_key(id) implies w.peers.contains_pair(
        (w.udp[id].tunnel_id, w.udp[id].peer),
        id,
    ) by {
        assert(v.udp.contains_key(id));
    }
    assert forall|p: (u128, u64)| #[trigger] w.peers.contains_key(p) implies w.udp.contains_key(
        w.peers[p],
    ) && w.udp[w.peers[p]].tunnel_id == p.0 && w.udp[w.peers[p]].peer == p.1 by {
        assert(v.peers.contains_key(p));
    }
}

/// Tearing down a connection's channels, and ending the connection, keep the
/// plane consistent.
pub proof fn teardown_keeps_consistent(v: PlaneView, device: u128, connection: u128)
    requires
        consistent(v),
    ensures
        consistent(teardown(v, device, connection)),
        consistent(control_ended(v, device, connection)),
{
    drop_streams_keeps_consistent(v, bound_streams(v, device, connection));
    let w = drop_streams(v, bound_streams(v, device, connection));
    drop_udp_keeps_consistent(w, bound_udp(v, device, connection));
    other_parts_keep_consistent(
        drop_udp(w, bound_udp(v, device, connection)),
        teardown(v, device, connection),
    );
    let x = PlaneView {
        sessions: control_ended(v, device, connection).sessions,
        heartbeats: control_ended(v, device, connection).heartbeats,
        ..v
    };
    other_parts_keep_consistent(v, x);
    let ids = connection_udp(v, device, connection);
    drop_udp_keeps_consistent(x, ids);
    let y = drop_udp(x, ids);
    drop_streams_keeps_consistent(y, bound_streams(y, device, connection));
    let z = drop_streams(y, bound_streams(y, device, connection));
    drop_udp_keeps_consistent(z, bound_udp(y, device, connection));
    other_parts_keep_consistent(
        drop_udp(z, bound_udp(y, device, connection)),
        teardown(y, device, connection),
    );
}

/// A control connection that ends late never touches a newer one: the session,
/// the heartbeat, the channels, the streams on those channels, and the UDP
/// sessions of the newer connection all stay as they were.
pub proof fn ended_connection_keeps_newer(
    v: PlaneView,
    device: u128,
    old_connection: u128,
    new_connection: u128,
)
    requires
        old_connection != new_connection,
    ensures
        v.sessions.contains_pair(device, new_connection) ==> control_ended(
            v,
            device,
            old_connection,
        ).sessions.contains_pair(device, new_connection),
        v.heartbeats.contains_key(device) && v.heartbeats[device].connection_id == new_connection
            ==> control_ended(v, device, old_connection).heartbeats.contains_pair(
            device,
            v.heartbeats[device],
        ),
        forall|c: u64| #[trigger]
            v.channels.contains_pair((device, c), new_connection) ==> control_ended(
                v,
                device,
                old_connection,
            ).channels.contains_pair((device, c), new_connection),
        forall|id: u128| #[trigger]
            v.streams.contains_key(id) && v.streams[id].device_id == device
                && v.channels.contains_pair(
                (device, v.streams[id].data_channel as u64),
                new_connection,
            ) ==> control_ended(v, device, old_connection).streams.contains_pair(
                id,
                v.streams[id],
            ),
        forall|id: u128| #[trigger]
            v.udp.contains_key(id) && v.udp[id].device_id == device && v.udp[id].connection_id
                == new_connection && v.channels.contains_pair(
                (device, v.udp[id].data_channel as u64),
                new_connection,
            ) ==> control_ended(v, device, old_connection).udp.contains_pair(id, v.udp[id]),
{
}

/// Ending a control connection of one device leaves every other device alone.
pub proof fn ended_connection_keeps_other_devices(
    v: PlaneView,
    device: u128,
    connection: u128,
    other: u128,
)
    requires
        other != device,
    ensures
        control_ended(v, device, connection).sessions.get(other) == v.sessions.get(other),
        control_ended(v, device, connection).heartbeats.get(other) == v.heartbeats.get(other),
        forall|c: u64|
            #![trigger v.channels.get((other, c))]
            control_ended(v, device, connection).channels.get((other, c)) == v.channels.get(
                (other, c),
            ),
        forall|id: u128| #[trigger]
            v.streams.contains_key(id) && v.streams[id].device_id == other ==> control_ended(
                v,
                device,
                connection,
            ).streams.contains_pair(id, v.streams[id]),
        forall|id: u128| #[trigger]
            v.udp.contains_key(id) && v.udp[id].device_id == other ==> control_ended(
                v,
                device,
                connection,
            ).udp.contains_pair(id, v.udp[id]),
        forall|c: u16| #[trigger]
            control_ended(v, device, connection).loads[(other, c)] == v.loads[(other, c)],
{
    let x = PlaneView {
        sessions: control_ended(v, device, connection).sessions,
        heartbeats: control_ended(v, device, connection).heartbeats,
        ..v
    };
    let ids = connection_udp(v, device, connection);
    let y = drop_udp(x, ids);
    let a = bound_streams(y, device, connection);
    let z = drop_streams(y, a);
    let b = bound_udp(y, device, connection);
    assert forall|c: u16| #[trigger]
        control_ended(v, device, connection).loads[(other, c)] == v.loads[(other, c)] by {
        let k = (other, c);
        assert(udp_among(x.udp, ids, k) =~= Set::empty());
        assert(streams_among(y.streams, a, k) =~= Set::empty());
        assert(udp_among(z.udp, b, k) =~= Set::empty());
    }
}

/// One more frame of a stream waits in its channel's queue.
pub open spec fn slot_taken(v: PlaneView, id: u128) -> PlaneView {
    PlaneView {
        streams: v.streams.insert(
            id,
            StreamEntry {
                outstanding: (v.streams[id].outstanding + 1) as usize,
                ..v.streams[id]
            },
        ),
        ..v
    }
}

/// One frame of a stream less waits in its channel's queue.
pub open spec fn slot_freed(v: PlaneView, id: u128) -> PlaneView {
    PlaneView {
        streams: v.streams.insert(
            id,
            StreamEntry {
                outstanding: lessened(v.streams[id].outstanding, 1),
                ..v.streams[id]
            },
        ),
        ..v
    }
}

/// Whether no stream has more frames waiting than it may have.
pub open spec fn within_quota(v: PlaneView) -> bool {
    forall|id: u128| #[trigger]
        v.streams.contains_key(id) ==> v.streams[id].outstanding <= STREAM_CHANNEL_QUOTA
}

/// No operation lets a stream have more frames waiting than it may have: not
/// opening a stream, nor taking a place below the quota, nor returning one, nor
/// closing streams or UDP sessions.
pub proof fn quota_kept(v: PlaneView, id: u128, e: StreamEntry, ids: Set<u128>)
    requires
        within_quota(v),
    ensures
        e.outstanding == 0 ==> within_quota(add_stream(v, id, e)),
        v.streams.contains_key(id) && v.streams[id].outstanding < STREAM_CHANNEL_QUOTA
            ==> within_quota(slot_taken(v, id)),
        v.streams.contains_key(id) ==> within_quota(slot_freed(v, id)),
        within_quota(drop_streams(v, ids)),
        within_quota(drop_udp(v, ids)),
{
    assert forall|j: u128| #[trigger]
        drop_streams(v, ids).streams.contains_key(j) implies drop_streams(
        v,
        ids,
    ).streams[j].outstanding <= STREAM_CHANNEL_QUOTA by {
        assert(v.streams.contains_key(j));
    }
    assert forall|j: u128| #[trigger]
        add_stream(v, id, e).streams.contains_key(j) && j != id implies add_stream(
        v,
        id,
        e,
    ).streams[j].outstanding <= STREAM_CHANNEL_QUOTA by {
        assert(v.streams.contains_key(j));
    }
    assert forall|j: u128| #[trigger]
        slot_taken(v, id).streams.contains_key(j) && j != id implies slot_taken(
        v,
        id,
    ).streams[j].outstanding <= STREAM_CHANNEL_QUOTA by {
        assert(v.streams.contains_key(j));
    }
    assert forall|j: u128| #[trigger]
        slot_freed(v, id).streams.contains_key(j) && j != id implies slot_freed(
        v,
        id,
    ).streams[j].outstanding <= STREAM_CHANNEL_QUOTA by {
        assert(v.streams.contains_key(j));
    }
}

/// Returning a place undoes taking it, and neither touches another stream.
pub proof fn slot_round_trip(v: PlaneView, id: u128, other: u128)
    requires
        v.streams.contains_key(id),
        v.streams[id].outstanding < STREAM_CHANNEL_QUOTA,
        other != id,
    ensures
        slot_freed(slot_taken(v, id), id) == v,
        slot_taken(v, id).streams.get(other) == v.streams.get(other),
        slot_freed(v, id).streams.get(other) == v.streams.get(other),
{
    assert(slot_freed(slot_taken(v, id), id).streams =~= v.streams);
}

/// Taking or returning a place keeps the plane consistent.
pub proof fn slots_keep_consistent(v: PlaneView, id: u128)
    requires
        consistent(v),
        v.streams.contains_key(id),
    ensures
        consistent(slot_taken(v, id)),
        consistent(slot_freed(v, id)),
{
    let a = slot_taken(v, id);
    let b = slot_freed(v, id);
    assert(a.streams.dom() =~= v.streams.dom());
    assert(b.streams.dom() =~= v.streams.dom());
    assert forall|k: (u128, u16)| #[trigger]
        a.loads[k] == channel_streams(a, k).len() + channel_udp(a, k).len() by {
        assert(v.loads[k] == channel_streams(v, k).len() + channel_udp(v, k).len());
        assert(channel_streams(a, k) =~= channel_streams(v, k));
        assert(channel_udp(a, k) =~= channel_udp(v, k));
    }
    assert forall|k: (u128, u16)| #[trigger]
        b.loads[k] == channel_streams(b, k).len() + channel_udp(b, k).len() by {
        assert(v.loads[k] == channel_streams(v, k).len() + channel_udp(v, k).len());
        assert(channel_streams(b, k) =~= channel_streams(v, k));
        assert(channel_udp(b, k) =~= channel_udp(v, k));
    }
}

/// Closing a stream right after opening it under an unused id leaves the plane
/// as it was.
pub proof fn stream_open_close(v: PlaneView, id: u128, e: StreamEntry)
    requires
        v.loads.dom() == Set::<(u128, u16)>::full(),
        !v.streams.contains_key(id),
        v.loads[(e.device_id, e.data_channel)] < usize::MAX,
    ensures
        drop_streams(add_stream(v, id, e), set![id]) == v,
{
    let w = add_stream(v, id, e);
    let x = drop_streams(w, set![id]);
    assert(x.streams =~= v.streams);
    assert forall|k: (u128, u16)| x.loads[k] == v.loads[k] by {
        if stream_on(e, k) {
            assert(streams_among(w.streams, set![id], k) =~= set![id]);
        } else {
            assert(streams_among(w.streams, set![id], k) =~= Set::empty());
        }
    }
    assert(x.loads =~= v.loads);
}

/// Closing a UDP session right after opening it, under an unused id and for a
/// client without a session, leaves the plane as it was.
pub proof fn udp_open_close(v: PlaneView, id: u128, e: UdpSession)
    requires
        v.loads.dom() == Set::<(u128, u16)>::full(),
        !v.udp.contains_key(id),
        !v.peers.contains_key((e.tunnel_id, e.peer)),
        v.loads[(e.device_id, e.data_channel)] < usize::MAX,
    ensures
        drop_udp(add_udp(v, id, e), set![id]) == v,
{
    let w = add_udp(v, id, e);
    let x = drop_udp(w, set![id]);
    assert(x.udp =~= v.udp);
    assert forall|k: (u128, u16)| x.loads[k] == v.loads[k] by {
        if udp_on(e, k) {
            assert(udp_among(w.udp, set![id], k) =~= set![id]);
        } else {
            assert(udp_among(w.udp, set![id], k) =~= Set::empty());
        }
    }
    assert(x.loads =~= v.loads);
    assert(w.udp.contains_key(id));
    assert(peers_of(w.udp, set![id]) =~= set![(e.tunnel_id, e.peer)]);
    assert(x.peers =~= v.peers);
}

/// A device has at most one best channel, so the choice is settled.
pub proof fn best_channel_unique(v: PlaneView, device: u128, a: u16, b: u16)
    requires
        best_channel(v, device, a),
        best_channel(v, device, b),
    ensures
        a == b,
{
    assert(eligible(v, device, a));
    assert(eligible(v, device, b));
}

/// The plane after a UDP session was in use.
pub open spec fn touched(v: PlaneView, id: u128, now: u64) -> PlaneView {
    if v.udp.contains_key(id) {
        PlaneView {
            udp: v.udp.insert(id, UdpSession { last_seen: now, ..v.udp[id] }),
            ..v
        }
    } else {
        v
    }
}

/// Noting that a UDP session is in use keeps the plane consistent.
pub proof fn touch_keeps_consistent(v: PlaneView, id: u128, now: u64)
    requires
        consistent(v),
    ensures
        consistent(touched(v, id, now)),
{
    let w = touched(v, id, now);
    if v.udp.contains_key(id) {
        assert(w.udp.dom() =~= v.udp.dom());
        assert forall|k: (u128, u16)| #[trigger]
            w.loads[k] == channel_streams(w, k).len() + channel_udp(w, k).len() by {
            assert(v.loads[k] == channel_streams(v, k).len() + channel_udp(v, k).len());
            assert(channel_streams(w, k) =~= channel_streams(v, k));
            assert(channel_udp(w, k) =~= channel_udp(v, k));
        }
        assert forall|j: u128| #[trigger] w.udp.contains_key(j) implies w.peers.contains_pair(
            (w.udp[j].tunnel_id, w.udp[j].peer),
            j,
        ) by {
            assert(v.udp.contains_key(j));
        }
        assert forall|p: (u128, u64)| #[trigger] w.peers.contains_key(p) implies w.udp.contains_key(
            w.peers[p],
        ) && w.udp[w.peers[p]].tunnel_id == p.0 && w.udp[w.peers[p]].peer == p.1 by {
            assert(v.peers.contains_key(p));
        }
    }
}

/// Once a control connection has ended, its UDP clients are unknown: the next
/// datagram of each opens a new session.
pub proof fn ended_connection_frees_clients(
    v: PlaneView,
    device: u128,
    connection: u128,
    id: u128,
)
    requires
        v.udp.contains_key(id),
        v.udp[id].device_id == device,
        v.udp[id].connection_id == connection,
    ensures
        !control_ended(v, device, connection).udp.contains_key(id),
        !control_ended(v, device, connection).peers.contains_key(
            (v.udp[id].tunnel_id, v.udp[id].peer),
        ),
{
    let gone = connection_udp(v, device, connection);
    assert(gone.contains(id));
    assert(peers_of(v.udp, gone).contains((v.udp[id].tunnel_id, v.udp[id].peer)));
}

/// A tunnel below its limit of connections is within it after one more stream,
/// and no other tunnel has more streams than before.
pub proof fn connection_limit_kept(
    v: PlaneView,
    id: u128,
    e: StreamEntry,
    max_connections: usize,
    device: u128,
    tunnel: u128,
)
    requires
        v.streams.dom().finite(),
        !v.streams.contains_key(id),
        tunnel_streams(v, e.device_id, e.tunnel_id).len() < max_connections,
    ensures
        tunnel_streams(add_stream(v, id, e), e.device_id, e.tunnel_id).len() <= max_connections,
        (device, tunnel) != (e.device_id, e.tunnel_id) ==> tunnel_streams(
            add_stream(v, id, e),
            device,
            tunnel,
        ) == tunnel_streams(v, device, tunnel),
{
    let w = add_stream(v, id, e);
    assert(tunnel_streams(w, e.device_id, e.tunnel_id) =~= tunnel_streams(
        v,
        e.device_id,
        e.tunnel_id,
    ).insert(id));
    if (device, tunnel) != (e.device_id, e.tunnel_id) {
        assert(tunnel_streams(w, device, tunnel) =~= tunnel_streams(v, device, tunnel));
    }
}

/// A UDP session that was in use is never expired within the idle time, and is
/// expired after it. Being used concerns no other session.
pub proof fn sessions_expire_after_idle_time(
    v: PlaneView,
    id: u128,
    used: u64,
    tunnel: u128,
    now: u64,
    idle_secs: u64,
    other: u128,
)
    requires
        v.udp.contains_key(id),
        other != id,
    ensures
        ({
            let w = touched(v, id, used);
            let gone = idle_udp(w, tunnel, now, idle_secs);
            &&& now <= used + idle_secs * 1_000_000_000 ==> !gone.contains(id)
            &&& v.udp[id].tunnel_id == tunnel && now > used + idle_secs * 1_000_000_000
                ==> gone.contains(id)
            &&& v.udp[id].tunnel_id != tunnel ==> !gone.contains(id)
            &&& gone.contains(other) == idle_udp(v, tunnel, now, idle_secs).contains(other)
            &&& w.udp.get(other) == v.udp.get(other)
            &&& w.udp[id].last_seen == used
            &&& w.udp[id].peer == v.udp[id].peer && w.udp[id].device_id == v.udp[id].device_id
                && w.udp[id].data_channel == v.udp[id].data_channel && w.udp[id].tunnel_id
                == v.udp[id].tunnel_id && w.udp[id].connection_id == v.udp[id].connection_id
            &&& w.peers == v.peers && w.streams == v.streams && w.loads == v.loads
        }),
        forall|j: u128| #[trigger]
            idle_udp(v, tunnel, now, idle_secs).contains(j) <==> v.udp.contains_key(j)
                && v.udp[j].tunnel_id == tunnel && v.udp[j].last_seen + idle_secs * 1_000_000_000
                < now,
{
}

/// Removing UDP sessions removes those and no others. A client whose session is
/// gone is unknown; one whose session stays is still found.
pub proof fn removed_sessions_are_forgotten(v: PlaneView, ids: Set<u128>, id: u128)
    requires
        consistent(v),
        v.udp.contains_key(id),
    ensures
        ({
            let w = drop_udp(v, ids);
            let client = (v.udp[id].tunnel_id, v.udp[id].peer);
            &&& ids.contains(id) ==> !w.udp.contains_key(id) && !w.peers.contains_key(client)
            &&& !ids.contains(id) ==> w.udp.contains_pair(id, v.udp[id]) && w.peers.contains_pair(
                client,
                id,
            )
            &&& w.streams == v.streams && w.sessions == v.sessions && w.channels == v.channels
        }),
{
    drop_udp_keeps_consistent(v, ids);
    let w = drop_udp(v, ids);
    if ids.contains(id) {
        assert(peers_of(v.udp, ids).contains((v.udp[id].tunnel_id, v.udp[id].peer)));
    } else {
        assert(w.udp.contains_key(id));
    }
}

/// Which sessions and streams belong to a tunnel, a connection or a channel.
pub proof fn members_are_told_by_their_fields(
    v: PlaneView,
    id: u128,
    device: u128,
    tunnel: u128,
    connection: u128,
    channel: u16,
)
    ensures
        tunnel_udp(v, tunnel).contains(id) <==> v.udp.contains_key(id) && v.udp[id].tunnel_id
            == tunnel,
        connection_udp(v, device, connection).contains(id) <==> v.udp.contains_key(id)
            && v.udp[id].device_id == device && v.udp[id].connection_id == connection,
        tunnel_streams(v, device, tunnel).contains(id) <==> v.streams.contains_key(id)
            && v.streams[id].device_id == device && v.streams[id].tunnel_id == tunnel,
        channel_streams(v, (device, channel)).contains(id) <==> v.streams.contains_key(id)
            && v.streams[id].device_id == device && v.streams[id].data_channel == channel,
        channel_udp(v, (device, channel)).contains(id) <==> v.udp.contains_key(id)
            && v.udp[id].device_id == device && v.udp[id].data_channel == channel,
        bound_streams(v, device, connection).contains(id) <==> v.streams.contains_key(id)
            && v.streams[id].device_id == device && v.channels.contains_pair(
            (device, v.streams[id].data_channel as u64),
            connection,
        ),
        bound_udp(v, device, connection).contains(id) <==> v.udp.contains_key(id)
            && v.udp[id].device_id == device && v.channels.contains_pair(
            (device, v.udp[id].data_channel as u64),
            connection,
        ),
{
}

/// Nothing is left of a control connection that has ended: no session under it,
/// no heartbeat, no channel, no stream or UDP session on a channel of it, and
/// no UDP session opened under it.
pub proof fn ended_connection_leaves_nothing(
    v: PlaneView,
    device: u128,
    connection: u128,
    id: u128,
    channel: u64,
)
    ensures
        ({
            let w = control_ended(v, device, connection);
            &&& !w.sessions.contains_pair(device, connection)
            &&& w.heartbeats.contains_key(device) ==> w.heartbeats[device].connection_id
                != connection
            &&& !w.channels.contains_pair((device, channel), connection)
            &&& bound_streams(v, device, connection).contains(id) ==> !w.streams.contains_key(id)
            &&& bound_udp(v, device, connection).contains(id) ==> !w.udp.contains_key(id)
            &&& v.udp.contains_key(id) && v.udp[id].device_id == device && v.udp[id].connection_id
                == connection ==> !w.udp.contains_key(id)
        }),
        !teardown(v, device, connection).channels.contains_pair((device, channel), connection),
        bound_streams(v, device, connection).contains(id) ==> !teardown(
            v,
            device,
            connection,
        ).streams.contains_key(id),
        bound_udp(v, device, connection).contains(id) ==> !teardown(
            v,
            device,
            connection,
        ).udp.contains_key(id),
        teardown(v, device, connection).sessions == v.sessions,
        teardown(v, device, connection).heartbeats == v.heartbeats,
{
    let x = PlaneView {
        sessions: control_ended(v, device, connection).sessions,
        heartbeats: control_ended(v, device, connection).heartbeats,
        ..v
    };
    let y = drop_udp(x, connection_udp(v, device, connection));
    if bound_streams(v, device, connection).contains(id) {
        assert(bound_streams(y, device, connection).contains(id));
    }
    if bound_udp(v, device, connection).contains(id) {
        if y.udp.contains_key(id) {
            assert(bound_udp(y, device, connection).contains(id));
        }
    }
}

/// A plane whose device has a new control connection.
pub open spec fn session_opened(v: PlaneView, device: u128, connection: u128) -> PlaneView {
    PlaneView { sessions: v.sessions.insert(device, connection), ..v }
}

/// A new control connection of a device makes every channel of an earlier one
/// ineligible, and concerns no other device.
pub proof fn new_connection_retires_channels(
    v: PlaneView,
    device: u128,
    connection: u128,
    other: u128,
    channel: u16,
)
    requires
        other != device,
    ensures
        ({
            let w = session_opened(v, device, connection);
            &&& (eligible(w, device, channel) <==> v.channels.contains_pair(
                (device, channel as u64),
                connection,
            ))
            &&& eligible(w, other, channel) == eligible(v, other, channel)
            &&& w.sessions.contains_pair(device, connection)
            &&& w.sessions.get(other) == v.sessions.get(other)
            &&& w.streams == v.streams && w.udp == v.udp && w.channels == v.channels
        }),
{
}

/// Whether the loads of a device's channels differ by one at most.
pub open spec fn evenly_loaded(v: PlaneView, device: u128) -> bool {
    forall|a: u16, b: u16| #[trigger]
        eligible(v, device, a) && #[trigger] eligible(v, device, b) ==> v.loads[(device, a)]
            <= v.loads[(device, b)] + 1
}

/// Streams are spread evenly: as long as each goes to the best channel, the
/// loads of a device's channels differ by one at most. The best channel never
/// carries more than another, and has the lower number where both carry the
/// same.
pub proof fn best_channel_spreads_load(
    v: PlaneView,
    id: u128,
    e: StreamEntry,
    other: u16,
)
    requires
        best_channel(v, e.device_id, e.data_channel),
        v.loads[(e.device_id, e.data_channel)] < usize::MAX,
    ensures
        evenly_loaded(v, e.device_id) ==> evenly_loaded(add_stream(v, id, e), e.device_id),
        eligible(v, e.device_id, e.data_channel),
        eligible(v, e.device_id, other) ==> v.loads[(e.device_id, e.data_channel)] <= v.loads[(
            e.device_id,
            other,
        )],
        eligible(v, e.device_id, other) && v.loads[(e.device_id, e.data_channel)] == v.loads[(
            e.device_id,
            other,
        )] ==> e.data_channel <= other,
{
    let w = add_stream(v, id, e);
    let d = e.device_id;
    if evenly_loaded(v, d) {
        assert forall|a: u16, b: u16| #[trigger]
            eligible(w, d, a) && #[trigger] eligible(w, d, b) implies w.loads[(d, a)] <= w.loads[(
            d,
            b,
        )] + 1 by {
            assert(eligible(v, d, a));
            assert(eligible(v, d, b));
        }
    }
}

/// Adding a stream or a UDP session to a channel adds one to the load of that
/// channel and to no other, and leaves everything else that is open alone.
pub proof fn opening_adds_one_to_its_channel(
    v: PlaneView,
    id: u128,
    e: StreamEntry,
    s: UdpSession,
    other: u128,
    k: (u128, u16),
)
    requires
        other != id,
        v.loads[(e.device_id, e.data_channel)] < usize::MAX,
        v.loads[(s.device_id, s.data_channel)] < usize::MAX,
    ensures
        ({
            let w = add_stream(v, id, e);
            &&& w.streams.contains_pair(id, e)
            &&& w.streams.get(other) == v.streams.get(other)
            &&& w.loads[k] == v.loads[k] + if k == (e.device_id, e.data_channel) {
                1int
            } else {
                0
            }
            &&& w.udp == v.udp && w.peers == v.peers && w.channels == v.channels && w.sessions
                == v.sessions
        }),
        ({
            let w = add_udp(v, id, s);
            &&& w.udp.contains_pair(id, s)
            &&& w.udp.get(other) == v.udp.get(other)
            &&& w.peers.contains_pair((s.tunnel_id, s.peer), id)
            &&& w.loads[k] == v.loads[k] + if k == (s.device_id, s.data_channel) {
                1int
            } else {
                0
            }
            &&& w.streams == v.streams && w.channels == v.channels && w.sessions == v.sessions
        }),
{
}

/// Removing streams removes those and no others, and removing a channel unbinds
/// that one and no other.
pub proof fn removing_spares_the_rest(
    v: PlaneView,
    ids: Set<u128>,
    id: u128,
    k: (u128, u16),
    other: (u128, u64),
)
    requires
        v.streams.contains_key(id),
        other != (k.0, k.1 as u64),
    ensures
        ids.contains(id) ==> !drop_streams(v, ids).streams.contains_key(id),
        !ids.contains(id) ==> drop_streams(v, ids).streams.contains_pair(id, v.streams[id]),
        drop_streams(v, ids).udp == v.udp,
        drop_streams(v, ids).peers == v.peers,
        drop_streams(v, ids).channels == v.channels,
        !drop_channel(v, k).channels.contains_key((k.0, k.1 as u64)),
        drop_channel(v, k).channels.get(other) == v.channels.get(other),
        drop_channel(v, k).streams == close_channel(v, k).streams,
        drop_channel(v, k).udp == close_channel(v, k).udp,
        drop_channel(v, k).loads == close_channel(v, k).loads,
{
}

/// Whether a tunnel may have one more stream.
pub open spec fn below_limit(
    v: PlaneView,
    device: u128,
    tunnel: u128,
    max_connections: usize,
) -> bool {
    tunnel_streams(v, device, tunnel).len() < max_connections
}

/// A tunnel takes as many streams as its limit says: it takes one more exactly
/// while it has fewer, and none once it has that many.
pub proof fn tunnel_takes_its_limit(
    v: PlaneView,
    id: u128,
    e: StreamEntry,
    max_connections: usize,
)
    requires
        v.streams.dom().finite(),
        !v.streams.contains_key(id),
        tunnel_streams(v, e.device_id, e.tunnel_id).len() <= max_connections,
    ensures
        below_limit(v, e.device_id, e.tunnel_id, max_connections) ==> tunnel_streams(
            add_stream(v, id, e),
            e.device_id,
            e.tunnel_id,
        ).len() <= max_connections,
        !below_limit(v, e.device_id, e.tunnel_id, max_connections) ==> tunnel_streams(
            v,
            e.device_id,
            e.tunnel_id,
        ).len() == max_connections,
{
    connection_limit_kept_by_one(v, id, e);
}

/// One more stream of a tunnel is one more in its count.
pub proof fn connection_limit_kept_by_one(v: PlaneView, id: u128, e: StreamEntry)
    requires
        v.streams.dom().finite(),
        !v.streams.contains_key(id),
    ensures
        tunnel_streams(add_stream(v, id, e), e.device_id, e.tunnel_id).len() == tunnel_streams(
            v,
            e.device_id,
            e.tunnel_id,
        ).len() + 1,
{
    let w = add_stream(v, id, e);
    assert(tunnel_streams(w, e.device_id, e.tunnel_id) =~= tunnel_streams(
        v,
        e.device_id,
        e.tunnel_id,
    ).insert(id));
}

/// Whether a stream may have one more frame waiting in its channel's queue.
pub open spec fn has_slot(v: PlaneView, id: u128) -> bool {
    v.streams.contains_key(id) && v.streams[id].outstanding < STREAM_CHANNEL_QUOTA
}

/// Places taken in a row.
pub open spec fn slots_taken(v: PlaneView, id: u128, n: nat) -> PlaneView
    decreases n,
{
    if n == 0 {
        v
    } else {
        slot_taken(slots_taken(v, id, (n - 1) as nat), id)
    }
}

/// A stream that has just opened may have sixteen frames waiting and no more,
/// and each frame that leaves makes room for one.
pub proof fn quota_is_sixteen_frames(v: PlaneView, id: u128, e: StreamEntry, n: nat)
    requires
        n <= 16,
        e.outstanding == 0,
    ensures
        has_slot(slots_taken(add_stream(v, id, e), id, n), id) <==> n < 16,
        has_slot(slot_freed(slots_taken(add_stream(v, id, e), id, n), id), id),
        slots_taken(add_stream(v, id, e), id, n).streams.contains_key(id),
        slots_taken(add_stream(v, id, e), id, n).streams[id].outstanding == n,
        slots_taken(add_stream(v, id, e), id, n).streams[id].data_channel == e.data_channel,
        slots_taken(add_stream(v, id, e), id, n).streams[id].device_id == e.device_id,
        slots_taken(add_stream(v, id, e), id, n).streams[id].tunnel_id == e.tunnel_id,
    decreases n,
{
    if n > 0 {
        quota_is_sixteen_frames(v, id, e, (n - 1) as nat);
    }
}

/// Loads are counted one by one, up and down, and never below zero.
pub proof fn loads_count_one_by_one(load: usize, n: nat)
    requires
        load < usize::MAX,
    ensures
        one_more(load) == load + 1,
        lessened(one_more(load), 1) == load,
        lessened(0, n) == 0,
        n <= load ==> lessened(load, n) + n == load,
        n > load ==> lessened(load, n) == 0,
{
}

/// The only channel of a device is its best one, and so is the lower of two that
/// carry as much, and the one of two that carries less.
pub proof fn one_of_two_channels_is_best(v: PlaneView, device: u128, a: u16, b: u16)
    requires
        eligible(v, device, a),
        forall|c: u16| #[trigger] eligible(v, device, c) ==> c == a || c == b,
    ensures
        !eligible(v, device, b) ==> best_channel(v, device, a),
        v.loads[(device, a)] < v.loads[(device, b)] ==> best_channel(v, device, a),
        v.loads[(device, a)] == v.loads[(device, b)] && a < b ==> best_channel(v, device, a),
        v.loads[(device, a)] > v.loads[(device, b)] && eligible(v, device, b) ==> !best_channel(
            v,
            device,
            a,
        ),
{
}

} // verus!
