//! The agent's streams: which are open, whose frames arrived before they were,
//! and how much of the channel queue each may take.

use std::collections::HashMap;
use vstd::prelude::*;

use crate::pair_map::keys_of;
use crate::plane::{QueueResult, SlotOutcome};
use crate::plane_model::{lessened, SECOND, STREAM_CHANNEL_QUOTA};
use crate::protocol::MAX_FRAME_BYTES;

verus! {

broadcast use vstd::std_specs::hash::group_hash_axioms;

/// Bytes that may wait for a stream to open before a warning is due: four
/// frames cover the usual race between the control and the data sockets.
pub const PENDING_STREAM_BYTES: usize = 4 * MAX_FRAME_BYTES;

/// Bytes that may wait for a stream to open at most. A stream that never opens
/// must not take unbounded memory.
pub const PENDING_STREAM_HARD_BYTES: usize = 67_108_864;

/// Seconds that frames wait for their stream to open.
pub const PENDING_EXPIRY_SECS: u64 = 10;

/// An open stream: whether it carries datagrams, and how many of its frames
/// wait in its channel's queue.
#[derive(Debug, Clone, Copy, PartialEq, Eq, Structural)]
pub struct AgentStream {
    pub udp: bool,
    pub outstanding: usize,
}

/// Frames of a stream that has not opened, in the order they arrived.
pub struct PendingFrames {
    since: u64,
    frames: Vec<Vec<u8>>,
    total: usize,
}

/// What waits for a stream to open.
#[verifier::ext_equal]
pub struct PendingView {
    pub since: u64,
    pub frames: Seq<Seq<u8>>,
    pub total: nat,
}

/// The bytes of each frame.
pub open spec fn frame_views(frames: Seq<Vec<u8>>) -> Seq<Seq<u8>> {
    Seq::new(frames.len(), |i: int| frames[i]@)
}

impl View for PendingFrames {
    type V = PendingView;

    closed spec fn view(&self) -> PendingView {
        PendingView {
            since: self.since,
            frames: frame_views(self.frames@),
            total: self.total as nat,
        }
    }
}

/// The bytes in frames together.
pub open spec fn byte_count(frames: Seq<Seq<u8>>) -> nat
    decreases frames.len(),
{
    if frames.len() == 0 {
        0
    } else {
        byte_count(frames.drop_last()) + frames.last().len()
    }
}

/// The agent's streams and what waits for streams to open.
#[verifier::ext_equal]
pub struct TableView {
    pub streams: Map<u128, AgentStream>,
    pub pending: Map<u128, PendingView>,
}

/// What waits under an id, or nothing since now.
pub open spec fn waiting(v: TableView, id: u128, now: u64) -> PendingView {
    if v.pending.contains_key(id) {
        v.pending[id]
    } else {
        PendingView { since: now, frames: Seq::empty(), total: 0 }
    }
}

/// Lets a frame wait for its stream to open, unless that would go over the
/// limit.
pub open spec fn buffered(
    v: TableView,
    id: u128,
    data: Seq<u8>,
    hard_limit: usize,
    now: u64,
) -> TableView {
    let w = waiting(v, id, now);
    TableView {
        pending: v.pending.insert(
            id,
            if w.total + data.len() > hard_limit {
                w
            } else {
                PendingView {
                    since: w.since,
                    frames: w.frames.push(data),
                    total: w.total + data.len(),
                }
            },
        ),
        ..v
    }
}

/// Opens a stream. What waited for it waits no more.
pub open spec fn opened(v: TableView, id: u128, udp: bool) -> TableView {
    TableView {
        streams: v.streams.insert(id, AgentStream { udp, outstanding: 0 }),
        pending: v.pending.remove(id),
    }
}

/// The frames that waited for a stream.
pub open spec fn waited_frames(v: TableView, id: u128) -> Seq<Seq<u8>> {
    if v.pending.contains_key(id) {
        v.pending[id].frames
    } else {
        Seq::empty()
    }
}

/// Whether the counts of what waits are right.
pub open spec fn counts_right(v: TableView) -> bool {
    forall|id: u128| #[trigger]
        v.pending.contains_key(id) ==> v.pending[id].total == byte_count(v.pending[id].frames)
}

/// What became of a frame that arrived before its stream.
#[derive(Debug, Clone, Copy, PartialEq, Eq, Structural)]
pub enum BufferOutcome {
    Stored,
    /// Stored, and the budget was just crossed.
    StoredOverBudget,
    /// The limit would have been crossed; the frame is lost.
    Dropped,
}

/// Where a data frame goes.
#[derive(Debug, Clone, Copy, PartialEq, Eq, Structural)]
pub enum AgentRoute {
    /// Its stream is not open; it has to wait.
    Buffer,
    /// To a stream of datagrams; lost when the queue is full.
    Datagram,
    /// To a stream of bytes; waits for the queue.
    Bytes,
}

/// Frames are buffered until the limit, then dropped. The budget is where a
/// warning is due, once.
pub open spec fn buffer_outcome(
    v: TableView,
    id: u128,
    data: Seq<u8>,
    byte_budget: usize,
    hard_limit: usize,
    now: u64,
) -> BufferOutcome {
    let total = waiting(v, id, now).total;
    if total + data.len() > hard_limit {
        BufferOutcome::Dropped
    } else if total < byte_budget && total + data.len() >= byte_budget {
        BufferOutcome::StoredOverBudget
    } else {
        BufferOutcome::Stored
    }
}

/// Streams and waiting frames.
pub struct StreamTable {
    streams: HashMap<u128, AgentStream>,
    pending: HashMap<u128, PendingFrames>,
}

impl View for StreamTable {
    type V = TableView;

    closed spec fn view(&self) -> TableView {
        TableView {
            streams: self.streams@,
            pending: self.pending@.map_values(|p: PendingFrames| p@),
        }
    }
}

impl StreamTable {
    pub fn new() -> (r: Self)
        ensures
            r@ == (TableView { streams: Map::empty(), pending: Map::empty() }),
    {
        let r = StreamTable { streams: HashMap::new(), pending: HashMap::new() };
        assert(r@ =~= (TableView { streams: Map::empty(), pending: Map::empty() }));
        r
    }

    /// An open stream.
    pub fn stream(&self, id: u128) -> (r: Option<AgentStream>)
        ensures
            r == self@.streams.get(id),
    {
        match self.streams.get(&id) {
            Some(s) => Some(*s),
            None => None,
        }
    }

    /// The number and the bytes of the frames that wait for a stream.
    pub fn pending_size(&self, id: u128) -> (r: Option<(usize, usize)>)
        ensures
            match r {
                Some((frames, bytes)) => self@.pending.contains_key(id)
                    && self@.pending[id].frames.len() == frames && self@.pending[id].total
                    == bytes,
                None => !self@.pending.contains_key(id),
            },
    {
        match self.pending.get(&id) {
            Some(p) => Some((p.frames.len(), p.total)),
            None => None,
        }
    }

    /// Lets a frame wait that arrived before its stream was opened.
    pub fn buffer_pending_frame(
        &mut self,
        id: u128,
        data: &[u8],
        byte_budget: usize,
        hard_limit: usize,
        now: u64,
    ) -> (r: BufferOutcome)
        ensures
            r == buffer_outcome(old(self)@, id, data@, byte_budget, hard_limit, now),
            final(self)@ == buffered(old(self)@, id, data@, hard_limit, now),
    {
        let ghost before = self@;
        let mut entry: PendingFrames = match self.pending.remove(&id) {
            Some(entry) => entry,
            None => PendingFrames { since: now, frames: Vec::new(), total: 0 },
        };
        let ghost w = entry@;
        assert(w =~= waiting(before, id, now));
        let over = entry.total > hard_limit || data.len() > hard_limit - entry.total;
        if over {
            self.pending.insert(id, entry);
            assert(self@ =~= buffered(before, id, data@, hard_limit, now));
            return BufferOutcome::Dropped;
        }
        let crossed = entry.total < byte_budget && entry.total + data.len() >= byte_budget;
        let mut copy: Vec<u8> = Vec::new();
        copy.extend_from_slice(data);
        assert(copy@ =~= data@);
        let ghost prior = entry.frames@;
        entry.frames.push(copy);
        assert(frame_views(entry.frames@) =~= frame_views(prior).push(data@));
        entry.total = entry.total + data.len();
        self.pending.insert(id, entry);
        assert(self@ =~= buffered(before, id, data@, hard_limit, now));
        if crossed {
            BufferOutcome::StoredOverBudget
        } else {
            BufferOutcome::Stored
        }
    }

    /// Opens a stream and hands out the frames that waited for it, in the order
    /// they arrived.
    pub fn open_stream(&mut self, id: u128, udp: bool) -> (r: Vec<Vec<u8>>)
        ensures
            final(self)@ == opened(old(self)@, id, udp),
            frame_views(r@) == waited_frames(old(self)@, id),
    {
        let ghost before = self@;
        self.streams.insert(id, AgentStream { udp, outstanding: 0 });
        let frames: Vec<Vec<u8>> = match self.pending.remove(&id) {
            Some(entry) => entry.frames,
            None => Vec::new(),
        };
        assert(self@ =~= opened(before, id, udp));
        assert(frame_views(frames@) =~= waited_frames(before, id));
        frames
    }

    /// Removes a stream.
    pub fn drop_stream(&mut self, id: u128)
        ensures
            final(self)@ == (TableView {
                streams: old(self)@.streams.remove(id),
                ..old(self)@
            }),
            final(self)@ == dropped(old(self)@, id),
    {
        self.streams.remove(&id);
        assert(self@.streams =~= old(self)@.streams.remove(id));
        assert(self@.pending =~= old(self)@.pending);
    }

    /// Removes a stream that the server closed, and what waited for it.
    pub fn close_stream(&mut self, id: u128)
        ensures
            final(self)@ == (TableView {
                streams: old(self)@.streams.remove(id),
                pending: old(self)@.pending.remove(id),
            }),
            final(self)@ == closed_in(old(self)@, id),
    {
        self.streams.remove(&id);
        self.pending.remove(&id);
        assert(self@ =~= (TableView {
            streams: old(self)@.streams.remove(id),
            pending: old(self)@.pending.remove(id),
        }));
    }

    /// Removes everything when the session ends.
    pub fn clear(&mut self)
        ensures
            final(self)@ == (TableView { streams: Map::empty(), pending: Map::empty() }),
    {
        self.streams.clear();
        self.pending.clear();
        assert(self@ =~= (TableView { streams: Map::empty(), pending: Map::empty() }));
    }

    /// Drops frames that waited too long for their stream to open.
    pub fn expire_pending(&mut self, now: u64)
        ensures
            final(self)@ == expired(old(self)@, now),
    {
        let ghost before = self@;
        let ids = keys_of(&self.pending);
        let mut i: usize = 0;
        assert(self@.pending =~= before.pending.remove_keys(
            stale_ids(before, now).intersect(ids@.take(0).to_set()),
        ));
        while i < ids.len()
            invariant
                i <= ids.len(),
                ids@.no_duplicates(),
                ids@.to_set() == before.pending.dom(),
                self@.streams == before.streams,
                self@.pending == before.pending.remove_keys(
                    stale_ids(before, now).intersect(ids@.take(i as int).to_set()),
                ),
            decreases ids.len() - i,
        {
            let id: u128 = ids[i];
            let ghost done = ids@.take(i as int).to_set();
            let ghost prior = self@;
            proof {
                assert(ids@.take(i + 1) =~= ids@.take(i as int).push(id));
                ids@.take(i as int).lemma_push_to_set_commute(id);
                assert(!done.contains(id));
                assert(ids@.to_set().contains(id));
                assert(prior.pending.contains_key(id));
                assert(prior.pending[id] == before.pending[id]);
            }
            let stale = match self.pending.get(&id) {
                Some(entry) => entry.since <= now && now - entry.since >= PENDING_EXPIRY_SECS
                    * SECOND,
                None => false,
            };
            assert(stale == stale_ids(before, now).contains(id));
            if stale {
                self.pending.remove(&id);
                assert(self@.pending =~= prior.pending.remove(id));
                assert(self@.streams =~= prior.streams);
            }
            assert(self@.pending =~= before.pending.remove_keys(
                stale_ids(before, now).intersect(done.insert(id)),
            ));
            i += 1;
        }
        assert(ids@.take(ids@.len() as int) =~= ids@);
        assert(self@ =~= expired(before, now));
    }

    /// Where a data frame goes.
    pub fn route(&self, id: u128) -> (r: AgentRoute)
        ensures
            r == route_of(self@, id),
    {
        match self.stream(id) {
            None => AgentRoute::Buffer,
            Some(s) => {
                if s.udp {
                    AgentRoute::Datagram
                } else {
                    AgentRoute::Bytes
                }
            },
        }
    }

    /// Settles a frame of a stream of bytes once the local queue took it or
    /// refused it. A stream whose queue refused is closed, and the server is to
    /// be told the reason.
    pub fn settle_route(&mut self, id: u128, sent: QueueResult) -> (r: Option<String>)
        ensures
            match sent {
                QueueResult::Sent => r is None && final(self)@ == old(self)@,
                QueueResult::Closed => (r matches Some(reason) && reason@
                    == "local_channel_closed"@) && final(self)@ == (TableView {
                    streams: old(self)@.streams.remove(id),
                    ..old(self)@
                }),
                QueueResult::Full => (r matches Some(reason) && reason@ == "local_send_timeout"@)
                    && final(self)@ == (TableView {
                    streams: old(self)@.streams.remove(id),
                    ..old(self)@
                }),
            },
            final(self)@ == settled(old(self)@, id, sent),
    {
        match sent {
            QueueResult::Sent => None,
            QueueResult::Closed => {
                self.drop_stream(id);
                Some("local_channel_closed".to_owned())
            },
            QueueResult::Full => {
                self.drop_stream(id);
                Some("local_send_timeout".to_owned())
            },
        }
    }

    /// Reserves one place of a stream's share of the channel queue.
    pub fn acquire_stream_slot(&mut self, id: u128) -> (r: SlotOutcome)
        ensures
            r is Gone <==> !old(self)@.streams.contains_key(id),
            r is Acquired <==> old(self)@.streams.contains_key(id)
                && old(self)@.streams[id].outstanding < STREAM_CHANNEL_QUOTA,
            r is Acquired <==> has_place(old(self)@, id),
            final(self)@ == if r is Acquired {
                place_taken(old(self)@, id)
            } else {
                old(self)@
            },
    {
        match self.stream(id) {
            None => SlotOutcome::Gone,
            Some(s) => {
                if s.outstanding < STREAM_CHANNEL_QUOTA {
                    self.streams.insert(
                        id,
                        AgentStream { udp: s.udp, outstanding: s.outstanding + 1 },
                    );
                    assert(self@ =~= place_taken(old(self)@, id));
                    SlotOutcome::Acquired
                } else {
                    SlotOutcome::Wait
                }
            },
        }
    }

    /// Returns one place after the channel writer took the frame. Says whether
    /// the stream is still open, so that its bridge can be woken.
    pub fn release_stream_slot(&mut self, id: u128) -> (r: bool)
        ensures
            r == old(self)@.streams.contains_key(id),
            final(self)@ == if r {
                place_freed(old(self)@, id)
            } else {
                old(self)@
            },
    {
        match self.stream(id) {
            None => false,
            Some(s) => {
                self.streams.insert(
                    id,
                    AgentStream { udp: s.udp, outstanding: s.outstanding.saturating_sub(1) },
                );
                assert(self@ =~= place_freed(old(self)@, id));
                true
            },
        }
    }
}

/// One more frame of a stream waits in its channel's queue.
pub open spec fn place_taken(v: TableView, id: u128) -> TableView {
    TableView {
        streams: v.streams.insert(
            id,
            AgentStream {
                udp: v.streams[id].udp,
                outstanding: (v.streams[id].outstanding + 1) as usize,
            },
        ),
        ..v
    }
}

/// One frame of a stream less waits in its channel's queue.
pub open spec fn place_freed(v: TableView, id: u128) -> TableView {
    TableView {
        streams: v.streams.insert(
            id,
            AgentStream {
                udp: v.streams[id].udp,
                outstanding: lessened(v.streams[id].outstanding, 1),
            },
        ),
        ..v
    }
}

/// Where a data frame goes.
pub open spec fn route_of(v: TableView, id: u128) -> AgentRoute {
    if !v.streams.contains_key(id) {
        AgentRoute::Buffer
    } else if v.streams[id].udp {
        AgentRoute::Datagram
    } else {
        AgentRoute::Bytes
    }
}

/// The ids under which frames waited too long.
pub open spec fn stale_ids(v: TableView, now: u64) -> Set<u128> {
    v.pending.dom().filter(
        |id: u128| now - v.pending[id].since >= PENDING_EXPIRY_SECS * SECOND,
    )
}

/// What is left when frames that waited too long are dropped.
pub open spec fn expired(v: TableView, now: u64) -> TableView {
    TableView { pending: v.pending.remove_keys(stale_ids(v, now)), ..v }
}

/// Frames let wait one after another.
pub open spec fn buffered_all(
    v: TableView,
    id: u128,
    frames: Seq<Seq<u8>>,
    hard_limit: usize,
    now: u64,
) -> TableView
    decreases frames.len(),
{
    if frames.len() == 0 {
        v
    } else {
        buffered(
            buffered_all(v, id, frames.drop_last(), hard_limit, now),
            id,
            frames.last(),
            hard_limit,
            now,
        )
    }
}

/// Frames that arrive before their stream and fit the limit come out when the
/// stream opens: all of them, in the order they arrived.
pub proof fn waiting_frames_kept(
    v: TableView,
    id: u128,
    frames: Seq<Seq<u8>>,
    hard_limit: usize,
    now: u64,
)
    requires
        !v.pending.contains_key(id),
        byte_count(frames) <= hard_limit,
    ensures
        waited_frames(buffered_all(v, id, frames, hard_limit, now), id) == frames,
{
    lemma_buffered_all(v, id, frames, hard_limit, now);
}

proof fn lemma_buffered_all(
    v: TableView,
    id: u128,
    frames: Seq<Seq<u8>>,
    hard_limit: usize,
    now: u64,
)
    requires
        !v.pending.contains_key(id),
        byte_count(frames) <= hard_limit,
    ensures
        waited_frames(buffered_all(v, id, frames, hard_limit, now), id) == frames,
        waiting(buffered_all(v, id, frames, hard_limit, now), id, now).total == byte_count(frames),
        waiting(buffered_all(v, id, frames, hard_limit, now), id, now).frames == frames,
    decreases frames.len(),
{
    if frames.len() > 0 {
        lemma_buffered_all(v, id, frames.drop_last(), hard_limit, now);
        assert(frames.drop_last().push(frames.last()) =~= frames);
    }
}

/// The limit holds, and so do the counts: letting a frame wait never brings
/// what waits under an id over the limit, and the count stays the count of the
/// bytes that wait.
pub proof fn pending_limit_kept(
    v: TableView,
    id: u128,
    data: Seq<u8>,
    hard_limit: usize,
    now: u64,
)
    requires
        counts_right(v),
        waiting(v, id, now).total <= hard_limit,
    ensures
        counts_right(buffered(v, id, data, hard_limit, now)),
        byte_count(waiting(buffered(v, id, data, hard_limit, now), id, now).frames) <= hard_limit,
{
    let w = buffered(v, id, data, hard_limit, now);
    let p = waiting(v, id, now);
    assert(p.frames.push(data).drop_last() =~= p.frames);
    assert(v.pending.contains_key(id) ==> p.total == byte_count(p.frames));
    assert(p.total == byte_count(p.frames));
    assert(byte_count(p.frames.push(data)) == p.total + data.len());
    assert forall|j: u128| #[trigger] w.pending.contains_key(j) implies w.pending[j].total
        == byte_count(w.pending[j].frames) by {
        if j != id {
            assert(v.pending.contains_key(j));
        }
    }
}

/// Opening, closing and expiring keep the counts right.
pub proof fn counts_kept(v: TableView, id: u128, udp: bool, now: u64)
    requires
        counts_right(v),
    ensures
        counts_right(opened(v, id, udp)),
        counts_right(expired(v, now)),
{
    assert forall|j: u128| #[trigger] opened(v, id, udp).pending.contains_key(j) implies opened(
        v,
        id,
        udp,
    ).pending[j].total == byte_count(opened(v, id, udp).pending[j].frames) by {
        assert(v.pending.contains_key(j));
    }
    assert forall|j: u128| #[trigger] expired(v, now).pending.contains_key(j) implies expired(
        v,
        now,
    ).pending[j].total == byte_count(expired(v, now).pending[j].frames) by {
        assert(v.pending.contains_key(j));
    }
}

/// Returning a place undoes taking it, and neither touches another stream.
pub proof fn place_round_trip(v: TableView, id: u128, other: u128)
    requires
        v.streams.contains_key(id),
        v.streams[id].outstanding < STREAM_CHANNEL_QUOTA,
        other != id,
    ensures
        place_freed(place_taken(v, id), id) == v,
        place_taken(v, id).streams.get(other) == v.streams.get(other),
        place_freed(v, id).streams.get(other) == v.streams.get(other),
{
    assert(place_freed(place_taken(v, id), id).streams =~= v.streams);
}

/// Whether no stream has more frames waiting in its channel's queue than it may
/// have.
pub open spec fn within_share(v: TableView) -> bool {
    forall|id: u128| #[trigger]
        v.streams.contains_key(id) ==> v.streams[id].outstanding <= STREAM_CHANNEL_QUOTA
}

/// No operation lets a stream have more frames waiting than it may have: not
/// opening a stream, nor taking a place below the quota, nor returning one, nor
/// removing a stream.
pub proof fn share_kept(v: TableView, id: u128, udp: bool)
    requires
        within_share(v),
    ensures
        within_share(opened(v, id, udp)),
        v.streams.contains_key(id) && v.streams[id].outstanding < STREAM_CHANNEL_QUOTA
            ==> within_share(place_taken(v, id)),
        v.streams.contains_key(id) ==> within_share(place_freed(v, id)),
        within_share(TableView { streams: v.streams.remove(id), ..v }),
{
    let a = opened(v, id, udp);
    assert forall|j: u128| #[trigger] a.streams.contains_key(j) implies a.streams[j].outstanding
        <= STREAM_CHANNEL_QUOTA by {
        if j != id {
            assert(v.streams.contains_key(j));
        }
    }
    let b = place_taken(v, id);
    assert forall|j: u128| #[trigger] b.streams.contains_key(j) && j != id implies
        b.streams[j].outstanding <= STREAM_CHANNEL_QUOTA by {
        assert(v.streams.contains_key(j));
    }
    let c = place_freed(v, id);
    assert forall|j: u128| #[trigger] c.streams.contains_key(j) && j != id implies
        c.streams[j].outstanding <= STREAM_CHANNEL_QUOTA by {
        assert(v.streams.contains_key(j));
    }
    let d = TableView { streams: v.streams.remove(id), ..v };
    assert forall|j: u128| #[trigger] d.streams.contains_key(j) implies d.streams[j].outstanding
        <= STREAM_CHANNEL_QUOTA by {
        assert(v.streams.contains_key(j));
    }
}

/// A warning is due once: after the frame that crosses the budget, no further
/// frame crosses it while those before it wait.
pub proof fn budget_crossed_once(
    v: TableView,
    id: u128,
    data: Seq<u8>,
    next: Seq<u8>,
    byte_budget: usize,
    hard_limit: usize,
    now: u64,
    later: u64,
)
    requires
        buffer_outcome(v, id, data, byte_budget, hard_limit, now)
            == BufferOutcome::StoredOverBudget,
    ensures
        buffer_outcome(
            buffered(v, id, data, hard_limit, now),
            id,
            next,
            byte_budget,
            hard_limit,
            later,
        ) != BufferOutcome::StoredOverBudget,
{
}

/// The streams once the local queue of one took a frame or refused it.
pub open spec fn settled(v: TableView, id: u128, sent: QueueResult) -> TableView {
    if sent == QueueResult::Sent {
        v
    } else {
        TableView { streams: v.streams.remove(id), ..v }
    }
}

/// Whether a stream may have one more frame waiting in its channel's queue.
pub open spec fn has_place(v: TableView, id: u128) -> bool {
    v.streams.contains_key(id) && v.streams[id].outstanding < STREAM_CHANNEL_QUOTA
}

/// A stream of bytes stays open as long as its local queue takes its frames,
/// and is closed once it refuses one. No other stream notices.
pub proof fn refusing_queue_closes_its_stream(v: TableView, id: u128, other: u128)
    requires
        v.streams.contains_key(id),
        other != id,
    ensures
        settled(v, id, QueueResult::Sent) == v,
        route_of(settled(v, id, QueueResult::Full), id) == AgentRoute::Buffer,
        route_of(settled(v, id, QueueResult::Closed), id) == AgentRoute::Buffer,
        route_of(settled(v, id, QueueResult::Full), other) == route_of(v, other),
        route_of(settled(v, id, QueueResult::Closed), other) == route_of(v, other),
{
}

/// Places taken in a row.
pub open spec fn places_taken(v: TableView, id: u128, n: nat) -> TableView
    decreases n,
{
    if n == 0 {
        v
    } else {
        place_taken(places_taken(v, id, (n - 1) as nat), id)
    }
}

/// A stream that has just opened may have sixteen frames waiting and no more,
/// and each frame that leaves makes room for one.
pub proof fn share_is_sixteen_frames(v: TableView, id: u128, udp: bool, n: nat)
    requires
        n <= 16,
    ensures
        has_place(places_taken(opened(v, id, udp), id, n), id) <==> n < 16,
        has_place(place_freed(places_taken(opened(v, id, udp), id, n), id), id),
        route_of(places_taken(opened(v, id, udp), id, n), id) == if udp {
            AgentRoute::Datagram
        } else {
            AgentRoute::Bytes
        },
        places_taken(opened(v, id, udp), id, n).streams.contains_key(id),
        places_taken(opened(v, id, udp), id, n).streams[id].outstanding == n,
    decreases n,
{
    if n > 0 {
        share_is_sixteen_frames(v, id, udp, (n - 1) as nat);
    }
}

/// A frame that arrives before its stream is kept, in its place, as long as
/// what waits stays within the limit, and else it alone is lost. What became of
/// it is what the outcome says. What waits for other streams stays.
pub proof fn early_frame_kept_or_dropped(
    v: TableView,
    id: u128,
    data: Seq<u8>,
    byte_budget: usize,
    hard_limit: usize,
    now: u64,
    other: u128,
)
    requires
        counts_right(v),
        other != id,
    ensures
        ({
            let before = waited_frames(v, id);
            let w = buffered(v, id, data, hard_limit, now);
            let outcome = buffer_outcome(v, id, data, byte_budget, hard_limit, now);
            &&& (outcome == BufferOutcome::Dropped <==> byte_count(before) + data.len()
                > hard_limit)
            &&& (outcome == BufferOutcome::Dropped ==> waited_frames(w, id) == before)
            &&& (outcome != BufferOutcome::Dropped ==> waited_frames(w, id) == before.push(data))
            &&& (outcome == BufferOutcome::StoredOverBudget ==> byte_count(before) < byte_budget
                <= byte_count(before) + data.len())
            &&& (outcome == BufferOutcome::Stored ==> byte_count(before) >= byte_budget
                || byte_count(before) + data.len() < byte_budget)
            &&& waited_frames(w, other) == waited_frames(v, other)
            &&& w.streams == v.streams
        }),
{
    let p = waiting(v, id, now);
    assert(v.pending.contains_key(id) ==> p.total == byte_count(p.frames));
}

/// Frames wait for their stream less than ten seconds, counted from the first
/// of them: until then they are kept, and from then on they are dropped. Open
/// streams stay.
pub proof fn early_frames_wait_ten_seconds(
    v: TableView,
    id: u128,
    first: Seq<u8>,
    next: Seq<u8>,
    hard_limit: usize,
    arrived: u64,
    later: u64,
    now: u64,
)
    requires
        !v.pending.contains_key(id),
        arrived <= later <= now,
        first.len() + next.len() <= hard_limit,
    ensures
        ({
            let w = buffered(
                buffered(v, id, first, hard_limit, arrived),
                id,
                next,
                hard_limit,
                later,
            );
            &&& now - arrived < 10_000_000_000 ==> waited_frames(expired(w, now), id) == seq![
                first,
                next,
            ]
            &&& now - arrived >= 10_000_000_000 ==> waited_frames(expired(w, now), id)
                == Seq::<Seq<u8>>::empty()
            &&& expired(w, now).streams == v.streams
        }),
{
    let w = buffered(buffered(v, id, first, hard_limit, arrived), id, next, hard_limit, later);
    assert(w.pending[id].frames =~= seq![first, next]);
}

/// The table without a stream.
pub open spec fn dropped(v: TableView, id: u128) -> TableView {
    TableView { streams: v.streams.remove(id), ..v }
}

/// The table without a stream and without what waits for it.
pub open spec fn closed_in(v: TableView, id: u128) -> TableView {
    TableView { streams: v.streams.remove(id), pending: v.pending.remove(id) }
}

/// A stream that is dropped or closed is no longer routed to, and nothing waits
/// for one that was closed. Other streams stay.
pub proof fn gone_stream_is_not_routed_to(v: TableView, id: u128, udp: bool, other: u128)
    requires
        other != id,
    ensures
        route_of(dropped(opened(v, id, udp), id), id) == AgentRoute::Buffer,
        route_of(closed_in(opened(v, id, udp), id), id) == AgentRoute::Buffer,
        waited_frames(closed_in(v, id), id).len() == 0,
        waited_frames(dropped(v, id), id) == waited_frames(v, id),
        route_of(dropped(v, id), other) == route_of(v, other),
        route_of(closed_in(v, id), other) == route_of(v, other),
        waited_frames(closed_in(v, id), other) == waited_frames(v, other),
        waited_frames(dropped(v, id), other) == waited_frames(v, other),
{
}

} // verus!
