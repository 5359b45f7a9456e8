//! Traffic counters of an agent's data channels, and the snapshot that a
//! console asks for.

use std::collections::HashMap;
use vstd::prelude::*;

use crate::pair_map::keys_of;
use crate::protocol::AgentSettings;

verus! {

broadcast use vstd::std_specs::hash::group_hash_axioms;

/// The counters of one data channel. They live as long as the agent, so that
/// the totals carry over reconnects.
#[derive(Debug, Clone, Copy, PartialEq, Eq, Structural)]
pub struct ChannelCounters {
    pub up_bytes: u64,
    pub down_bytes: u64,
    pub connected: bool,
}

#[derive(Debug, Clone, Copy, PartialEq, Eq, Structural)]
pub struct IpcChannelStat {
    pub channel_id: u16,
    pub up_bytes: u64,
    pub down_bytes: u64,
    pub connected: bool,
}

#[derive(Debug, Clone, Copy, PartialEq, Eq, Structural)]
pub struct IpcTrafficTotals {
    pub up_bytes: u64,
    pub down_bytes: u64,
    pub total_bytes: u64,
}

/// What a console is shown of a running agent.
#[derive(Debug, PartialEq, Eq)]
pub struct IpcSnapshot {
    pub settings: AgentSettings,
    pub settings_synced_at: Option<u64>,
    pub channels: Vec<IpcChannelStat>,
    pub totals: IpcTrafficTotals,
}

/// A sum that starts again at zero when it no longer fits.
pub open spec fn wrapped(a: u64, b: nat) -> u64 {
    ((a + b) % 18_446_744_073_709_551_616) as u64
}

/// The sum of two numbers, or the highest where that is more.
pub open spec fn saturated(a: u64, b: u64) -> u64 {
    if a + b <= u64::MAX {
        (a + b) as u64
    } else {
        u64::MAX
    }
}

/// The counters of every data channel.
pub struct TrafficStats {
    channels: HashMap<u16, ChannelCounters>,
}

impl View for TrafficStats {
    type V = Map<u16, ChannelCounters>;

    closed spec fn view(&self) -> Map<u16, ChannelCounters> {
        self.channels@
    }
}

/// The counters of a channel, or zeros where it has none.
pub open spec fn counters_of(m: Map<u16, ChannelCounters>, channel_id: u16) -> ChannelCounters {
    if m.contains_key(channel_id) {
        m[channel_id]
    } else {
        ChannelCounters { up_bytes: 0, down_bytes: 0, connected: false }
    }
}

impl TrafficStats {
    pub fn new() -> (r: Self)
        ensures
            r@ == Map::<u16, ChannelCounters>::empty(),
    {
        TrafficStats { channels: HashMap::new() }
    }

    /// The counters of a channel.
    pub fn counters(&self, channel_id: u16) -> (r: ChannelCounters)
        ensures
            r == counters_of(self@, channel_id),
    {
        match self.channels.get(&channel_id) {
            Some(c) => *c,
            None => ChannelCounters { up_bytes: 0, down_bytes: 0, connected: false },
        }
    }

    /// A channel was bound. Its totals go on.
    pub fn channel_bound(&mut self, channel_id: u16)
        ensures
            final(self)@ == old(self)@.insert(
                channel_id,
                (ChannelCounters { connected: true, ..counters_of(old(self)@, channel_id) }),
            ),
            final(self)@ == marked(old(self)@, channel_id, true),
    {
        let c = self.counters(channel_id);
        self.channels.insert(
            channel_id,
            ChannelCounters { up_bytes: c.up_bytes, down_bytes: c.down_bytes, connected: true },
        );
    }

    /// A channel was lost. Its totals stay.
    pub fn channel_lost(&mut self, channel_id: u16)
        ensures
            final(self)@ == old(self)@.insert(
                channel_id,
                (ChannelCounters { connected: false, ..counters_of(old(self)@, channel_id) }),
            ),
            final(self)@ == marked(old(self)@, channel_id, false),
    {
        let c = self.counters(channel_id);
        self.channels.insert(
            channel_id,
            ChannelCounters { up_bytes: c.up_bytes, down_bytes: c.down_bytes, connected: false },
        );
    }

    /// Payload went up.
    pub fn count_up(&mut self, channel_id: u16, bytes: usize)
        ensures
            final(self)@ == old(self)@.insert(
                channel_id,
                (ChannelCounters {
                    up_bytes: wrapped(counters_of(old(self)@, channel_id).up_bytes, bytes as nat),
                    ..counters_of(old(self)@, channel_id)
                }),
            ),
            final(self)@ == counted(old(self)@, channel_id, bytes as nat, 0),
    {
        let c = self.counters(channel_id);
        let up: u64 = wrapped_sum(c.up_bytes, bytes);
        self.channels.insert(
            channel_id,
            ChannelCounters { up_bytes: up, down_bytes: c.down_bytes, connected: c.connected },
        );
    }

    /// Payload came down.
    pub fn count_down(&mut self, channel_id: u16, bytes: usize)
        ensures
            final(self)@ == old(self)@.insert(
                channel_id,
                (ChannelCounters {
                    down_bytes: wrapped(
                        counters_of(old(self)@, channel_id).down_bytes,
                        bytes as nat,
                    ),
                    ..counters_of(old(self)@, channel_id)
                }),
            ),
            final(self)@ == counted(old(self)@, channel_id, 0, bytes as nat),
    {
        let c = self.counters(channel_id);
        let down: u64 = wrapped_sum(c.down_bytes, bytes);
        self.channels.insert(
            channel_id,
            ChannelCounters { up_bytes: c.up_bytes, down_bytes: down, connected: c.connected },
        );
    }

    /// The control session ended; every channel is gone. The totals stay.
    pub fn disconnect_all(&mut self)
        ensures
            final(self)@ == old(self)@.map_values(
                |c: ChannelCounters| (ChannelCounters { connected: false, ..c }),
            ),
            final(self)@ == all_lost(old(self)@),
    {
        let ids = keys_of(&self.channels);
        let ghost before = self@;
        let ghost after = before.map_values(
            |c: ChannelCounters| (ChannelCounters { connected: false, ..c }),
        );
        let mut i: usize = 0;
        while i < ids.len()
            invariant
                i <= ids.len(),
                ids@.no_duplicates(),
                ids@.to_set() == before.dom(),
                after == before.map_values(
                    |c: ChannelCounters| (ChannelCounters { connected: false, ..c }),
                ),
                self@.dom() == before.dom(),
                forall|j: int| 0 <= j < i ==> self@[#[trigger] ids@[j]] == after[ids@[j]],
                forall|j: int| i <= j < ids@.len() ==> self@[#[trigger] ids@[j]] == before[ids@[j]],
            decreases ids.len() - i,
        {
            let id: u16 = ids[i];
            assert(ids@.to_set().contains(id));
            let ghost prior = self@;
            self.channel_lost(id);
            assert(self@.dom() =~= before.dom());
            i += 1;
        }
        assert forall|k: u16| self@.contains_key(k) implies self@[k] == after[k] by {
            assert(ids@.to_set().contains(k));
            let j = choose|j: int| 0 <= j < ids@.len() && ids@[j] == k;
            assert(self@[ids@[j]] == after[ids@[j]]);
        }
        assert(self@ =~= after);
    }

    /// The live snapshot: the settings in force and the bytes of each channel,
    /// by channel number.
    pub fn snapshot(&self, settings: AgentSettings, settings_synced_at: Option<u64>) -> (r:
        IpcSnapshot)
        ensures
            r.settings == settings,
            r.settings_synced_at == settings_synced_at,
            snapshot_of(self@, r.channels@),
            r.totals.up_bytes == sum_up(r.channels@),
            r.totals.down_bytes == sum_down(r.channels@),
            r.totals.total_bytes == saturated(r.totals.up_bytes, r.totals.down_bytes),
            totals_right(r),
    {
        let ids = sorted(keys_of(&self.channels));
        let mut channels: Vec<IpcChannelStat> = Vec::new();
        let mut up: u64 = 0;
        let mut down: u64 = 0;
        let mut i: usize = 0;
        while i < ids.len()
            invariant
                i <= ids.len(),
                ascending(ids@),
                ids@.to_set() == self@.dom(),
                channels@.len() == i,
                forall|j: int|
                    0 <= j < i ==> (#[trigger] channels@[j]).channel_id == ids@[j] && stat_of(
                        self@,
                        channels@[j],
                    ),
                up == sum_up(channels@),
                down == sum_down(channels@),
            decreases ids.len() - i,
        {
            let id: u16 = ids[i];
            assert(ids@.to_set().contains(id));
            let c = self.counters(id);
            let ghost prior = channels@;
            channels.push(
                IpcChannelStat {
                    channel_id: id,
                    up_bytes: c.up_bytes,
                    down_bytes: c.down_bytes,
                    connected: c.connected,
                },
            );
            proof {
                assert(channels@.drop_last() =~= prior);
            }
            up = up.wrapping_add(c.up_bytes);
            down = down.wrapping_add(c.down_bytes);
            i += 1;
        }
        proof {
            assert forall|k: u16| #[trigger] self@.contains_key(k) implies exists|j: int|
                0 <= j < channels@.len() && (#[trigger] channels@[j]).channel_id == k by {
                assert(ids@.to_set().contains(k));
                let j = choose|j: int| 0 <= j < ids@.len() && ids@[j] == k;
                assert(channels@[j].channel_id == k);
            }
            assert forall|a: int, b: int| 0 <= a < b < channels@.len() implies (
            #[trigger] channels@[a]).channel_id < (#[trigger] channels@[b]).channel_id by {
                assert(ids@[a] < ids@[b]);
            }
        }
        IpcSnapshot {
            settings,
            settings_synced_at,
            channels,
            totals: IpcTrafficTotals {
                up_bytes: up,
                down_bytes: down,
                total_bytes: up.saturating_add(down),
            },
        }
    }
}

fn wrapped_sum(a: u64, bytes: usize) -> (r: u64)
    ensures
        r == wrapped(a, bytes as nat),
{
    a.wrapping_add(bytes as u64)
}

/// Whether a line of a snapshot is what the counters say.
pub open spec fn stat_of(m: Map<u16, ChannelCounters>, s: IpcChannelStat) -> bool {
    m.contains_key(s.channel_id) && m[s.channel_id] == (ChannelCounters {
        up_bytes: s.up_bytes,
        down_bytes: s.down_bytes,
        connected: s.connected,
    })
}

/// Whether lines are those of every channel, by channel number.
pub open spec fn snapshot_of(m: Map<u16, ChannelCounters>, s: Seq<IpcChannelStat>) -> bool {
    &&& forall|i: int| 0 <= i < s.len() ==> stat_of(m, #[trigger] s[i])
    &&& forall|i: int, j: int|
        0 <= i < j < s.len() ==> (#[trigger] s[i]).channel_id < (#[trigger] s[j]).channel_id
    &&& forall|k: u16| #[trigger]
        m.contains_key(k) ==> exists|j: int|
            0 <= j < s.len() && (#[trigger] s[j]).channel_id == k
}

/// The bytes that went up.
pub open spec fn sum_up(s: Seq<IpcChannelStat>) -> u64
    decreases s.len(),
{
    if s.len() == 0 {
        0
    } else {
        wrapped(sum_up(s.drop_last()), s.last().up_bytes as nat)
    }
}

/// The bytes that came down.
pub open spec fn sum_down(s: Seq<IpcChannelStat>) -> u64
    decreases s.len(),
{
    if s.len() == 0 {
        0
    } else {
        wrapped(sum_down(s.drop_last()), s.last().down_bytes as nat)
    }
}

/// Whether numbers go up.
pub open spec fn ascending(s: Seq<u16>) -> bool {
    forall|i: int, j: int| 0 <= i < j < s.len() ==> (#[trigger] s[i]) < (#[trigger] s[j])
}

/// Puts distinct numbers in order.
fn sorted(ids: Vec<u16>) -> (r: Vec<u16>)
    requires
        ids@.no_duplicates(),
    ensures
        ascending(r@),
        r@.to_set() == ids@.to_set(),
{
    let mut out: Vec<u16> = Vec::new();
    let mut i: usize = 0;
    assert(ids@.take(0).to_set() =~= out@.to_set());
    while i < ids.len()
        invariant
            i <= ids.len(),
            ids@.no_duplicates(),
            ascending(out@),
            out@.to_set() == ids@.take(i as int).to_set(),
        decreases ids.len() - i,
    {
        let id: u16 = ids[i];
        proof {
            assert(ids@.take(i + 1) =~= ids@.take(i as int).push(id));
            ids@.take(i as int).lemma_push_to_set_commute(id);
            assert(!ids@.take(i as int).to_set().contains(id));
        }
        let mut at: usize = 0;
        while at < out.len() && out[at] < id
            invariant
                at <= out@.len(),
                forall|j: int| 0 <= j < at ==> out@[j] < id,
            decreases out@.len() - at,
        {
            at += 1;
        }
        let ghost prior = out@;
        out.insert(at, id);
        proof {
            assert forall|a: int| at <= a < prior.len() implies id < #[trigger] prior[a] by {
                assert(prior.to_set().contains(prior[a]));
                assert(prior.to_set().contains(prior[at as int]));
                assert(prior[at as int] != id);
            }
            assert(out@ == prior.insert(at as int, id));
            assert(out@.to_set() =~= prior.to_set().insert(id)) by {
                assert forall|x: u16| out@.to_set().contains(x) == prior.to_set().insert(
                    id,
                ).contains(x) by {
                    if out@.to_set().contains(x) {
                        let n = choose|n: int| 0 <= n < out@.len() && out@[n] == x;
                        if n < at {
                            assert(prior[n] == x);
                        } else if n > at {
                            assert(prior[n - 1] == x);
                        }
                    }
                    if prior.to_set().contains(x) {
                        let n = choose|n: int| 0 <= n < prior.len() && prior[n] == x;
                        if n < at {
                            assert(out@[n] == x);
                        } else {
                            assert(out@[n + 1] == x);
                        }
                    }
                    assert(out@[at as int] == id);
                }
            }
        }
        i += 1;
    }
    assert(ids@.take(ids@.len() as int) =~= ids@);
    out
}

/// A channel that was lost and is bound again goes on from the totals it had.
pub proof fn totals_carry_over(m: Map<u16, ChannelCounters>, c: u16)
    ensures
        ({
            let lost = m.insert(c, ChannelCounters { connected: false, ..counters_of(m, c) });
            let bound = lost.insert(c, ChannelCounters { connected: true, ..counters_of(lost, c) });
            &&& counters_of(bound, c).up_bytes == counters_of(m, c).up_bytes
            &&& counters_of(bound, c).down_bytes == counters_of(m, c).down_bytes
            &&& counters_of(bound, c).connected
        }),
{
}

/// The counters after bytes that went up and bytes that came down.
pub open spec fn counted(
    m: Map<u16, ChannelCounters>,
    channel_id: u16,
    up: nat,
    down: nat,
) -> Map<u16, ChannelCounters> {
    let c = counters_of(m, channel_id);
    m.insert(
        channel_id,
        ChannelCounters {
            up_bytes: wrapped(c.up_bytes, up),
            down_bytes: wrapped(c.down_bytes, down),
            connected: c.connected,
        },
    )
}

/// Bytes are counted on their channel and in their direction, and nowhere else;
/// counting in parts is counting together.
pub proof fn bytes_counted_once(
    m: Map<u16, ChannelCounters>,
    c: u16,
    other: u16,
    up: nat,
    down: nat,
    more: nat,
)
    requires
        other != c,
        counters_of(m, c).up_bytes + up + more <= u64::MAX,
        counters_of(m, c).down_bytes + down <= u64::MAX,
    ensures
        counters_of(counted(m, c, up, down), c).up_bytes == counters_of(m, c).up_bytes + up,
        counters_of(counted(m, c, up, down), c).down_bytes == counters_of(m, c).down_bytes + down,
        counters_of(counted(m, c, up, down), c).connected == counters_of(m, c).connected,
        counters_of(counted(m, c, up, down), other) == counters_of(m, other),
        counters_of(counted(counted(m, c, up, 0), c, more, 0), c).up_bytes == counters_of(
            m,
            c,
        ).up_bytes + up + more,
        counters_of(Map::empty(), c).up_bytes == 0,
        counters_of(Map::empty(), c).down_bytes == 0,
        !counters_of(Map::empty(), c).connected,
{
}

/// The bytes of all lines together, up and down.
pub open spec fn grand_total(s: Seq<IpcChannelStat>) -> (nat, nat)
    decreases s.len(),
{
    if s.len() == 0 {
        (0, 0)
    } else {
        let rest = grand_total(s.drop_first());
        (s.first().up_bytes as nat + rest.0, s.first().down_bytes as nat + rest.1)
    }
}

proof fn lemma_grand_total_push(s: Seq<IpcChannelStat>, x: IpcChannelStat)
    ensures
        grand_total(s.push(x)).0 == grand_total(s).0 + x.up_bytes,
        grand_total(s.push(x)).1 == grand_total(s).1 + x.down_bytes,
    decreases s.len(),
{
    let t = s.push(x);
    if s.len() == 0 {
        assert(t.drop_first() =~= Seq::<IpcChannelStat>::empty());
        reveal_with_fuel(grand_total, 2);
    } else {
        assert(t.drop_first() =~= s.drop_first().push(x));
        lemma_grand_total_push(s.drop_first(), x);
    }
}

/// The totals of a snapshot are the sums of its lines, as far as they fit, and
/// the total of both directions is their sum or the highest number.
pub proof fn totals_are_sums(s: Seq<IpcChannelStat>, a: u64, b: u64)
    requires
        grand_total(s).0 <= u64::MAX,
        grand_total(s).1 <= u64::MAX,
    ensures
        sum_up(s) == grand_total(s).0,
        sum_down(s) == grand_total(s).1,
        a + b <= u64::MAX ==> saturated(a, b) == a + b,
        a + b > u64::MAX ==> saturated(a, b) == u64::MAX,
    decreases s.len(),
{
    if s.len() > 0 {
        lemma_grand_total_push(s.drop_last(), s.last());
        assert(s.drop_last().push(s.last()) =~= s);
        totals_are_sums(s.drop_last(), a, b);
    }
}

/// A snapshot shows each channel that has counters once, with its counters, and
/// no other.
pub proof fn snapshot_shows_each_channel(
    m: Map<u16, ChannelCounters>,
    s: Seq<IpcChannelStat>,
    c: u16,
    i: int,
)
    requires
        snapshot_of(m, s),
        0 <= i < s.len(),
    ensures
        m.contains_key(s[i].channel_id),
        counters_of(m, s[i].channel_id).up_bytes == s[i].up_bytes,
        counters_of(m, s[i].channel_id).down_bytes == s[i].down_bytes,
        counters_of(m, s[i].channel_id).connected == s[i].connected,
        m.contains_key(c) ==> exists|j: int| 0 <= j < s.len() && (#[trigger] s[j]).channel_id == c,
        forall|j: int| 0 <= j < i ==> (#[trigger] s[j]).channel_id < s[i].channel_id,
{
}

/// The counters with a channel marked as connected or not.
pub open spec fn marked(
    m: Map<u16, ChannelCounters>,
    channel_id: u16,
    connected: bool,
) -> Map<u16, ChannelCounters> {
    m.insert(channel_id, ChannelCounters { connected, ..counters_of(m, channel_id) })
}

/// The counters with every channel lost.
pub open spec fn all_lost(m: Map<u16, ChannelCounters>) -> Map<u16, ChannelCounters> {
    m.map_values(|c: ChannelCounters| (ChannelCounters { connected: false, ..c }))
}

/// Whether the totals of a snapshot are those of its lines.
pub open spec fn totals_right(r: IpcSnapshot) -> bool {
    &&& r.totals.up_bytes == sum_up(r.channels@)
    &&& r.totals.down_bytes == sum_down(r.channels@)
    &&& r.totals.total_bytes == saturated(r.totals.up_bytes, r.totals.down_bytes)
}

/// A channel is connected from when it was bound until it was lost, or all were.
/// Neither changes what it has counted, nor any other channel.
pub proof fn connected_while_bound(m: Map<u16, ChannelCounters>, c: u16, other: u16, on: bool)
    requires
        other != c,
    ensures
        counters_of(marked(m, c, true), c).connected,
        !counters_of(marked(marked(m, c, true), c, false), c).connected,
        !counters_of(all_lost(m), c).connected,
        counters_of(marked(m, c, on), c).up_bytes == counters_of(m, c).up_bytes,
        counters_of(marked(m, c, on), c).down_bytes == counters_of(m, c).down_bytes,
        counters_of(all_lost(m), c).up_bytes == counters_of(m, c).up_bytes,
        counters_of(all_lost(m), c).down_bytes == counters_of(m, c).down_bytes,
        counters_of(marked(m, c, on), other) == counters_of(m, other),
        all_lost(m).dom() == m.dom(),
{
}

/// The totals of a snapshot add up its lines, each direction by itself and both
/// together.
pub proof fn snapshot_adds_up(r: IpcSnapshot)
    requires
        totals_right(r),
        grand_total(r.channels@).0 + grand_total(r.channels@).1 <= u64::MAX,
    ensures
        r.totals.up_bytes == grand_total(r.channels@).0,
        r.totals.down_bytes == grand_total(r.channels@).1,
        r.totals.total_bytes == r.totals.up_bytes + r.totals.down_bytes,
{
    totals_are_sums(r.channels@, r.totals.up_bytes, r.totals.down_bytes);
}

/// A count that is full goes on from zero, and loses nothing below that.
pub proof fn full_count_starts_over(a: u64, b: nat)
    requires
        b <= u64::MAX,
    ensures
        a + b <= u64::MAX ==> wrapped(a, b) == a + b,
        a + b > u64::MAX ==> wrapped(a, b) == a + b - u64::MAX - 1,
{
}

} // verus!
