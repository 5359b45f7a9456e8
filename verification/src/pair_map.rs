//! A map whose keys are pairs: an owner and a number within it.

use std::collections::HashMap;
use vstd::prelude::*;
use vstd::std_specs::hash::obeys_key_model;

verus! {

broadcast use vstd::std_specs::hash::group_hash_axioms;

/// The keys of a map, each once.
pub(crate) fn keys_of<K: Copy, V>(m: &HashMap<K, V>) -> (r: Vec<K>)
    requires
        obeys_key_model::<K>(),
    ensures
        r@.no_duplicates(),
        r@.to_set() == m@.dom(),
{
    let mut out: Vec<K> = Vec::new();
    for k in it: m.keys()
        invariant
            it.seq().no_duplicates(),
            it.seq().unref().to_set() == m@.dom(),
            out@ == it.seq().unref().take(it.index() as int),
            it.seq().unref().take(it.seq().len() as int) == it.seq().unref(),
    {
        out.push(*k);
    }
    out
}

/// The keys of the values that meet a condition, each once.
pub(crate) fn keys_where<V: Copy, F: Fn(V) -> bool>(
    m: &HashMap<u128, V>,
    keep: F,
    Ghost(p): Ghost<spec_fn(V) -> bool>,
) -> (r: Vec<u128>)
    requires
        forall|v: V| #[trigger] call_requires(keep, (v,)),
        forall|v: V, b: bool| #[trigger] call_ensures(keep, (v,), b) ==> b == p(v),
    ensures
        r@.no_duplicates(),
        r@.to_set() == m@.dom().filter(|k: u128| p(m@[k])),
{
    let keys = keys_of(m);
    let mut out: Vec<u128> = Vec::new();
    let ghost f = |k: u128| p(m@[k]);
    let mut i: usize = 0;
    assert(keys@.take(0).to_set() =~= Set::empty());
    assert(out@.to_set() =~= Set::empty().filter(f));
    while i < keys.len()
        invariant
            i <= keys.len(),
            keys@.no_duplicates(),
            keys@.to_set() == m@.dom(),
            forall|v: V| #[trigger] call_requires(keep, (v,)),
            forall|v: V, b: bool| #[trigger] call_ensures(keep, (v,), b) ==> b == p(v),
            f == (|k: u128| p(m@[k])),
            out@.no_duplicates(),
            out@.to_set() == keys@.take(i as int).to_set().filter(f),
        decreases keys.len() - i,
    {
        let k: u128 = keys[i];
        let ghost done = keys@.take(i as int);
        let ghost prior = out@;
        proof {
            assert(keys@.take(i + 1) =~= done.push(k));
            done.lemma_push_to_set_commute(k);
            prior.lemma_push_to_set_commute(k);
            assert(!done.to_set().contains(k));
            assert(keys@.to_set().contains(k));
            assert(!prior.to_set().contains(k));
        }
        match m.get(&k) {
            Some(v) => {
                if keep(*v) {
                    out.push(k);
                    assert(out@.to_set() =~= keys@.take(i + 1).to_set().filter(f));
                } else {
                    assert(out@.to_set() =~= keys@.take(i + 1).to_set().filter(f));
                }
            },
            None => {},
        }
        i += 1;
    }
    assert(keys@.take(keys@.len() as int) =~= keys@);
    out
}

/// Values found by an owner and a number within it. An owner without values
/// takes no room.
pub struct PairMap<V> {
    owners: HashMap<u128, HashMap<u64, V>>,
}

impl<V> View for PairMap<V> {
    type V = Map<(u128, u64), V>;

    closed spec fn view(&self) -> Map<(u128, u64), V> {
        Map::new(
            |k: (u128, u64)|
                self.owners@.contains_key(k.0) && self.owners@[k.0]@.contains_key(k.1),
            |k: (u128, u64)| self.owners@[k.0]@[k.1],
        )
    }
}

/// The numbers in use under one owner.
pub open spec fn numbers<V>(m: Map<(u128, u64), V>, owner: u128) -> Set<u64> {
    Set::new(|n: u64| m.contains_key((owner, n)))
}

impl<V: Copy> PairMap<V> {
    /// No owner is kept without values.
    pub closed spec fn wf(&self) -> bool {
        forall|owner: u128| #[trigger]
            self.owners@.contains_key(owner) ==> self.owners@[owner]@.len() > 0
    }

    pub fn new() -> (r: Self)
        ensures
            r.wf(),
            r@ == Map::<(u128, u64), V>::empty(),
    {
        let r = PairMap { owners: HashMap::new() };
        assert(r@ =~= Map::<(u128, u64), V>::empty());
        r
    }

    /// The value at a pair.
    pub fn get(&self, owner: u128, number: u64) -> (r: Option<V>)
        requires
            self.wf(),
        ensures
            r == self@.get((owner, number)),
    {
        match self.owners.get(&owner) {
            None => None,
            Some(inner) => match inner.get(&number) {
                None => None,
                Some(v) => Some(*v),
            },
        }
    }

    /// Sets the value at a pair.
    pub fn insert(&mut self, owner: u128, number: u64, value: V)
        requires
            old(self).wf(),
        ensures
            final(self).wf(),
            final(self)@ == old(self)@.insert((owner, number), value),
    {
        let mut inner = match self.owners.remove(&owner) {
            Some(inner) => inner,
            None => HashMap::new(),
        };
        let ghost before = inner@;
        assert(before.dom().finite());
        inner.insert(number, value);
        assert(inner@.dom().contains(number));
        assert(inner@.len() > 0);
        self.owners.insert(owner, inner);
        assert(self@ =~= old(self)@.insert((owner, number), value));
    }

    /// Removes the value at a pair.
    pub fn remove(&mut self, owner: u128, number: u64)
        requires
            old(self).wf(),
        ensures
            final(self).wf(),
            final(self)@ == old(self)@.remove((owner, number)),
    {
        match self.owners.remove(&owner) {
            Some(mut inner) => {
                inner.remove(&number);
                if inner.is_empty() {
                    assert(inner@.dom() =~= Set::<u64>::empty()) by {
                        inner@.dom().lemma_len0_is_empty();
                    }
                } else {
                    self.owners.insert(owner, inner);
                }
            },
            None => {},
        }
        assert(self@ =~= old(self)@.remove((owner, number)));
    }

    /// The numbers in use under one owner, each once.
    pub fn numbers(&self, owner: u128) -> (r: Vec<u64>)
        requires
            self.wf(),
        ensures
            r@.no_duplicates(),
            r@.to_set() == numbers(self@, owner),
    {
        match self.owners.get(&owner) {
            None => {
                let r: Vec<u64> = Vec::new();
                assert(r@.to_set() =~= numbers(self@, owner));
                r
            },
            Some(inner) => {
                let r = keys_of(inner);
                assert(r@.to_set() =~= numbers(self@, owner));
                r
            },
        }
    }
}

} // verus!
