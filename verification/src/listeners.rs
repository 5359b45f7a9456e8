//! Which tunnels have a running public listener.

use std::collections::HashMap;
use vstd::prelude::*;

verus! {

broadcast use vstd::std_specs::hash::group_hash_axioms;

/// The listeners that run and the highest generation that was given out.
#[verifier::ext_equal]
pub struct ListenersView {
    pub running: Map<u128, u64>,
    pub issued: u64,
}

/// The running listeners, each with the generation it was started with. The
/// generation lets a listener that exits remove itself only, and not one that
/// was started after it.
pub struct Listeners {
    running: HashMap<u128, u64>,
    issued: u64,
}

impl View for Listeners {
    type V = ListenersView;

    closed spec fn view(&self) -> ListenersView {
        ListenersView { running: self.running@, issued: self.issued }
    }
}

/// Whether no listener has a generation that was not given out.
pub open spec fn generations_issued(v: ListenersView) -> bool {
    forall|t: u128| #[trigger] v.running.contains_key(t) ==> v.running[t] <= v.issued
}

/// The generation after those given out.
pub open spec fn next_generation(v: ListenersView) -> u64 {
    if v.issued == u64::MAX {
        u64::MAX
    } else {
        (v.issued + 1) as u64
    }
}

/// What is left when a listener of a generation exits.
pub open spec fn finished(v: ListenersView, tunnel_id: u128, generation: u64) -> ListenersView {
    if v.running.contains_pair(tunnel_id, generation) {
        ListenersView { running: v.running.remove(tunnel_id), ..v }
    } else {
        v
    }
}

impl Listeners {
    /// Whether the generations are in order.
    pub open spec fn wf(&self) -> bool {
        generations_issued(self@)
    }

    pub fn new() -> (r: Self)
        ensures
            r.wf(),
            r@ == (ListenersView { running: Map::empty(), issued: 0 }),
    {
        let r = Listeners { running: HashMap::new(), issued: 0 };
        assert(r@ =~= (ListenersView { running: Map::empty(), issued: 0 }));
        r
    }

    /// Whether a tunnel has a listener.
    pub fn is_active(&self, tunnel_id: u128) -> (r: bool)
        ensures
            r == self@.running.contains_key(tunnel_id),
    {
        self.running.contains_key(&tunnel_id)
    }

    /// The generation for a listener that is about to start.
    pub fn prepare(&mut self) -> (r: u64)
        requires
            old(self).wf(),
        ensures
            final(self).wf(),
            r == next_generation(old(self)@),
            final(self)@ == (ListenersView { issued: r, ..old(self)@ }),
    {
        let generation: u64 = self.issued.saturating_add(1);
        self.issued = generation;
        assert(self@ =~= (ListenersView { issued: generation, ..old(self)@ }));
        generation
    }

    /// A listener was started; it takes the place of an earlier one.
    pub fn install(&mut self, tunnel_id: u128, generation: u64)
        requires
            old(self).wf(),
            generation <= old(self)@.issued,
        ensures
            final(self).wf(),
            final(self)@ == (ListenersView {
                running: old(self)@.running.insert(tunnel_id, generation),
                ..old(self)@
            }),
            final(self)@ == installed(old(self)@, tunnel_id, generation),
    {
        self.running.insert(tunnel_id, generation);
        assert(self@ =~= (ListenersView {
            running: old(self)@.running.insert(tunnel_id, generation),
            ..old(self)@
        }));
    }

    /// A listener of a generation has exited: it is removed unless another has
    /// taken its place. Says whether it was removed.
    pub fn finish(&mut self, tunnel_id: u128, generation: u64) -> (r: bool)
        requires
            old(self).wf(),
        ensures
            final(self).wf(),
            r == old(self)@.running.contains_pair(tunnel_id, generation),
            final(self)@ == finished(old(self)@, tunnel_id, generation),
    {
        let ghost before = self@;
        let own = match self.running.get(&tunnel_id) {
            Some(g) => *g == generation,
            None => false,
        };
        if own {
            self.running.remove(&tunnel_id);
        }
        assert(self@ =~= finished(before, tunnel_id, generation));
        own
    }

    /// Stops the listener of a tunnel. Says whether there was one.
    pub fn remove(&mut self, tunnel_id: u128) -> (r: bool)
        requires
            old(self).wf(),
        ensures
            final(self).wf(),
            r == old(self)@.running.contains_key(tunnel_id),
            final(self)@ == (ListenersView {
                running: old(self)@.running.remove(tunnel_id),
                ..old(self)@
            }),
            final(self)@ == stopped(old(self)@, tunnel_id),
    {
        let ghost before = self@;
        let r = self.running.remove(&tunnel_id).is_some();
        assert(self@ =~= (ListenersView { running: before.running.remove(tunnel_id), ..before }));
        r
    }
}

/// A listener that exits never removes one that was started after it.
pub proof fn exit_keeps_newer(v: ListenersView, tunnel_id: u128, old_generation: u64)
    requires
        generations_issued(v),
        old_generation <= v.issued,
        v.issued < u64::MAX,
    ensures
        ({
            let g = next_generation(v);
            let started = ListenersView { running: v.running.insert(tunnel_id, g), issued: g };
            finished(started, tunnel_id, old_generation) == started
        }),
{
}

/// A listener that exits leaves the listeners of other tunnels running.
pub proof fn exit_keeps_others(v: ListenersView, tunnel_id: u128, generation: u64, other: u128)
    requires
        other != tunnel_id,
    ensures
        finished(v, tunnel_id, generation).running.contains_key(other)
            == v.running.contains_key(other),
        v.running.contains_key(other) ==> finished(v, tunnel_id, generation).running[other]
            == v.running[other],
{
}

/// A listener that exits is gone unless another took its place, and every
/// generation given out is new.
pub proof fn exit_removes_itself(v: ListenersView, tunnel_id: u128, generation: u64)
    requires
        generations_issued(v),
        v.issued < u64::MAX,
    ensures
        v.running.contains_pair(tunnel_id, generation) ==> !finished(
            v,
            tunnel_id,
            generation,
        ).running.contains_key(tunnel_id),
        v.running.contains_key(tunnel_id) && v.running[tunnel_id] != generation ==> finished(
            v,
            tunnel_id,
            generation,
        ) == v,
        finished(v, tunnel_id, generation).issued == v.issued,
        next_generation(v) == v.issued + 1,
        forall|t: u128| #[trigger] v.running.contains_key(t) ==> v.running[t] < next_generation(v),
{
}

/// The listeners with one more.
pub open spec fn installed(v: ListenersView, tunnel_id: u128, generation: u64) -> ListenersView {
    ListenersView { running: v.running.insert(tunnel_id, generation), ..v }
}

/// The listeners without that of a tunnel.
pub open spec fn stopped(v: ListenersView, tunnel_id: u128) -> ListenersView {
    ListenersView { running: v.running.remove(tunnel_id), ..v }
}

/// A tunnel listens from the start of its listener until that one is stopped or
/// exits; a listener that was replaced ends nothing when it exits. Tunnels do
/// not concern each other.
pub proof fn listens_until_stopped(
    v: ListenersView,
    tunnel_id: u128,
    generation: u64,
    replaced: u64,
    other: u128,
)
    requires
        replaced != generation,
        other != tunnel_id,
    ensures
        installed(v, tunnel_id, generation).running.contains_key(tunnel_id),
        !stopped(installed(v, tunnel_id, generation), tunnel_id).running.contains_key(tunnel_id),
        !finished(
            installed(v, tunnel_id, generation),
            tunnel_id,
            generation,
        ).running.contains_key(tunnel_id),
        finished(installed(v, tunnel_id, generation), tunnel_id, replaced) == installed(
            v,
            tunnel_id,
            generation,
        ),
        installed(v, tunnel_id, generation).running.get(other) == v.running.get(other),
        stopped(v, tunnel_id).running.get(other) == v.running.get(other),
        installed(v, tunnel_id, generation).issued == v.issued,
        stopped(v, tunnel_id).issued == v.issued,
{
}

} // verus!
