//! `key=value` files: credentials and bootstrap settings.

use vstd::prelude::*;

use crate::text::{
    first_index, lemma_first_index, lemma_first_index_is, lemma_trimmed_part, line_seq, lines,
    same_text, split_first, split_once, split_undoes_joining, trim, trimmed, views, without_cr,
};

verus! {

/// A key and its value.
pub type Pair = (Seq<char>, Seq<char>);

/// What the pairs say together: of two pairs with one key the later counts.
pub open spec fn map_of(pairs: Seq<Pair>) -> Map<Seq<char>, Seq<char>>
    decreases pairs.len(),
{
    if pairs.len() == 0 {
        Map::empty()
    } else {
        map_of(pairs.drop_last()).insert(pairs.last().0, pairs.last().1)
    }
}

/// The pair that a line stands for: what is before and after its first `=`.
pub open spec fn line_pair(line: Seq<char>) -> Seq<Pair> {
    match split_first(line, '=') {
        Some((k, v)) => seq![(trimmed(k), trimmed(v))],
        None => Seq::empty(),
    }
}

/// The pairs that lines stand for. Lines without `=` stand for none.
pub open spec fn line_pairs(rows: Seq<Seq<char>>) -> Seq<Pair>
    decreases rows.len(),
{
    if rows.len() == 0 {
        Seq::empty()
    } else {
        line_pair(rows.first()) + line_pairs(rows.drop_first())
    }
}

/// What a `key=value` text says.
pub open spec fn parsed_map(content: Seq<char>) -> Map<Seq<char>, Seq<char>> {
    map_of(line_pairs(line_seq(content)))
}

/// The `key=value` lines of pairs.
pub open spec fn rendered(pairs: Seq<Pair>) -> Seq<char>
    decreases pairs.len(),
{
    if pairs.len() == 0 {
        Seq::empty()
    } else {
        pairs.first().0 + seq!['='] + pairs.first().1 + seq!['\n'] + rendered(pairs.drop_first())
    }
}

/// Whether a pair comes back from its line: neither part begins or ends with
/// white space or holds a line feed, and the key holds no `=`.
pub open spec fn clean_pair(k: Seq<char>, v: Seq<char>) -> bool {
    &&& trimmed(k) == k
    &&& trimmed(v) == v
    &&& !k.contains('\n')
    &&& !v.contains('\n')
    &&& !k.contains('=')
}

/// Whether every pair comes back from its line.
pub open spec fn clean(m: Map<Seq<char>, Seq<char>>) -> bool {
    forall|k: Seq<char>| #[trigger] m.contains_key(k) ==> clean_pair(k, m[k])
}

/// One change: an empty value removes the key.
pub open spec fn updated(m: Map<Seq<char>, Seq<char>>, k: Seq<char>, v: Seq<char>) -> Map<
    Seq<char>,
    Seq<char>,
> {
    if v.len() == 0 {
        m.remove(k)
    } else {
        m.insert(k, v)
    }
}

/// Changes one after the other.
pub open spec fn merged(m: Map<Seq<char>, Seq<char>>, updates: Seq<Pair>) -> Map<
    Seq<char>,
    Seq<char>,
>
    decreases updates.len(),
{
    if updates.len() == 0 {
        m
    } else {
        updated(merged(m, updates.drop_last()), updates.last().0, updates.last().1)
    }
}

/// The characters of each pair.
pub open spec fn pair_views(v: Seq<(String, String)>) -> Seq<Pair> {
    Seq::new(v.len(), |i: int| (v[i].0@, v[i].1@))
}

proof fn lemma_line_pairs_push(rows: Seq<Seq<char>>, line: Seq<char>)
    ensures
        line_pairs(rows.push(line)) == line_pairs(rows) + line_pair(line),
    decreases rows.len(),
{
    if rows.len() == 0 {
        let one = rows.push(line);
        assert(one.drop_first() =~= Seq::<Seq<char>>::empty());
        assert(line_pairs(one.drop_first()) =~= Seq::<Pair>::empty());
        assert(one.first() == line);
        assert(line_pairs(one) =~= line_pair(line));
        assert(line_pairs(rows) + line_pair(line) =~= line_pair(line));
    } else {
        assert(rows.push(line).drop_first() =~= rows.drop_first().push(line));
        lemma_line_pairs_push(rows.drop_first(), line);
        assert(line_pairs(rows.push(line)) =~= line_pairs(rows) + line_pair(line));
    }
}

/// A trimmed text does not end in a carriage return.
pub proof fn lemma_trimmed_last(v: Seq<char>)
    requires
        trimmed(v) == v,
        v.len() > 0,
    ensures
        v.last() != '\r',
{
    crate::text::lemma_trim_start(v);
    let t = crate::text::trim_start(v);
    lemma_trim_end_len(t);
    assert(t.len() == v.len());
    assert(t =~= v);
    if v.last() == '\r' {
        assert(crate::text::white_space('\r'));
        lemma_trim_end_len(v.drop_last());
    }
}

proof fn lemma_trim_end_len(s: Seq<char>)
    ensures
        crate::text::trim_end(s).len() <= s.len(),
    decreases s.len(),
{
    if s.len() > 0 && crate::text::white_space(s.last()) {
        lemma_trim_end_len(s.drop_last());
    }
}

proof fn lemma_rendered_lines(pairs: Seq<Pair>)
    requires
        forall|i: int| 0 <= i < pairs.len() ==> clean_pair((#[trigger] pairs[i]).0, pairs[i].1),
    ensures
        line_pairs(line_seq(rendered(pairs))) == pairs,
    decreases pairs.len(),
{
    if pairs.len() == 0 {
        assert(line_pairs(line_seq(rendered(pairs))) =~= pairs);
    } else {
        let k = pairs.first().0;
        let v = pairs.first().1;
        let rest = rendered(pairs.drop_first());
        let row = k + seq!['='] + v;
        let s = rendered(pairs);
        assert(clean_pair(pairs[0].0, pairs[0].1));
        assert(s =~= row + seq!['\n'] + rest);
        assert forall|i: int| 0 <= i < row.len() implies s[i] != '\n' by {
            if i < k.len() {
                assert(s[i] == k[i]);
            } else if i > k.len() {
                assert(s[i] == v[i - k.len() - 1]);
            }
        }
        lemma_first_index_is(s, '\n', row.len() as int);
        assert(s.take(row.len() as int) =~= row);
        assert(s.skip(row.len() as int + 1) =~= rest);
        if v.len() > 0 {
            lemma_trimmed_last(v);
            assert(row.last() == v.last());
        } else {
            assert(row.last() == '=');
        }
        assert(without_cr(row) == row);
        assert(line_seq(s) == seq![row] + line_seq(rest));
        assert forall|i: int| 0 <= i < k.len() implies row[i] != '=' by {
            assert(row[i] == k[i]);
        }
        lemma_first_index_is(row, '=', k.len() as int);
        assert(row.take(k.len() as int) =~= k);
        assert(row.skip(k.len() as int + 1) =~= v);
        assert(line_pair(row) =~= seq![(k, v)]);
        let all = line_seq(s);
        assert(all.first() == row);
        assert(all.drop_first() =~= line_seq(rest));
        assert forall|i: int| 0 <= i < pairs.drop_first().len() implies clean_pair(
            (#[trigger] pairs.drop_first()[i]).0,
            pairs.drop_first()[i].1,
        ) by {
            assert(clean_pair(pairs[i + 1].0, pairs[i + 1].1));
        }
        lemma_rendered_lines(pairs.drop_first());
        assert(line_pairs(all) =~= pairs);
    }
}

/// Clean pairs come back from the text that they are written to.
pub proof fn text_round_trip(pairs: Seq<Pair>)
    requires
        clean(map_of(pairs)),
        distinct_keys(pairs),
    ensures
        parsed_map(rendered(pairs)) == map_of(pairs),
{
    assert forall|i: int| 0 <= i < pairs.len() implies clean_pair(
        (#[trigger] pairs[i]).0,
        pairs[i].1,
    ) by {
        lemma_map_of(pairs, i);
    }
    lemma_rendered_lines(pairs);
}

/// Whether no two pairs have one key.
pub open spec fn distinct_keys(pairs: Seq<Pair>) -> bool {
    forall|i: int, j: int|
        0 <= i < j < pairs.len() ==> (#[trigger] pairs[i]).0 != (#[trigger] pairs[j]).0
}

proof fn lemma_map_of(pairs: Seq<Pair>, i: int)
    requires
        0 <= i < pairs.len(),
        distinct_keys(pairs),
    ensures
        map_of(pairs).contains_pair(pairs[i].0, pairs[i].1),
    decreases pairs.len(),
{
    if i < pairs.len() - 1 {
        let rest = pairs.drop_last();
        assert forall|a: int, b: int| 0 <= a < b < rest.len() implies (#[trigger] rest[a]).0 != (
        #[trigger] rest[b]).0 by {
            assert(pairs[a].0 != pairs[b].0);
        }
        lemma_map_of(rest, i);
        assert(rest[i] == pairs[i]);
        assert(pairs[i].0 != pairs[pairs.len() - 1].0);
    }
}

proof fn lemma_map_of_absent(pairs: Seq<Pair>, k: Seq<char>)
    requires
        forall|i: int| 0 <= i < pairs.len() ==> (#[trigger] pairs[i]).0 != k,
    ensures
        !map_of(pairs).contains_key(k),
    decreases pairs.len(),
{
    if pairs.len() > 0 {
        let rest = pairs.drop_last();
        assert forall|i: int| 0 <= i < rest.len() implies (#[trigger] rest[i]).0 != k by {
            assert(pairs[i].0 != k);
        }
        lemma_map_of_absent(rest, k);
        assert(pairs[pairs.len() - 1].0 != k);
    }
}

/// Setting the value at an index of distinct keys.
proof fn lemma_map_of_update(pairs: Seq<Pair>, i: int, v: Seq<char>)
    requires
        0 <= i < pairs.len(),
        distinct_keys(pairs),
    ensures
        map_of(pairs.update(i, (pairs[i].0, v))) == map_of(pairs).insert(pairs[i].0, v),
    decreases pairs.len(),
{
    let after = pairs.update(i, (pairs[i].0, v));
    if i == pairs.len() - 1 {
        assert(after.drop_last() =~= pairs.drop_last());
        assert(map_of(after) =~= map_of(pairs).insert(pairs[i].0, v));
    } else {
        let rest = pairs.drop_last();
        assert forall|a: int, b: int| 0 <= a < b < rest.len() implies (#[trigger] rest[a]).0 != (
        #[trigger] rest[b]).0 by {
            assert(pairs[a].0 != pairs[b].0);
        }
        lemma_map_of_update(rest, i, v);
        assert(rest[i] == pairs[i]);
        assert(after.drop_last() =~= rest.update(i, (rest[i].0, v)));
        assert(pairs[i].0 != pairs[pairs.len() - 1].0);
        assert(map_of(after) =~= map_of(pairs).insert(pairs[i].0, v));
    }
}

/// Removing an index of distinct keys.
proof fn lemma_map_of_remove(pairs: Seq<Pair>, i: int)
    requires
        0 <= i < pairs.len(),
        distinct_keys(pairs),
    ensures
        map_of(pairs.remove(i)) == map_of(pairs).remove(pairs[i].0),
    decreases pairs.len(),
{
    let after = pairs.remove(i);
    let rest = pairs.drop_last();
    assert forall|a: int, b: int| 0 <= a < b < rest.len() implies (#[trigger] rest[a]).0 != (
    #[trigger] rest[b]).0 by {
        assert(pairs[a].0 != pairs[b].0);
    }
    if i == pairs.len() - 1 {
        assert(after =~= rest);
        assert forall|a: int| 0 <= a < rest.len() implies (#[trigger] rest[a]).0
            != pairs[i].0 by {
            assert(pairs[a].0 != pairs[i].0);
        }
        lemma_map_of_absent(rest, pairs[i].0);
        assert(map_of(after) =~= map_of(pairs).remove(pairs[i].0));
    } else {
        lemma_map_of_remove(rest, i);
        assert(rest[i] == pairs[i]);
        assert(after.drop_last() =~= rest.remove(i));
        assert(after.last() == pairs.last());
        assert(pairs[i].0 != pairs[pairs.len() - 1].0);
        assert(map_of(after) =~= map_of(pairs).remove(pairs[i].0));
    }
}

/// The value that the last change of a key gives it.
pub open spec fn last_value(updates: Seq<Pair>, k: Seq<char>) -> Option<Seq<char>>
    decreases updates.len(),
{
    if updates.len() == 0 {
        None
    } else if updates.last().0 == k {
        Some(updates.last().1)
    } else {
        last_value(updates.drop_last(), k)
    }
}

/// After a merge, a key has the value that was last set for it, is gone where
/// that is empty, and is as it was where none was set.
pub proof fn merge_effect(m: Map<Seq<char>, Seq<char>>, updates: Seq<Pair>, k: Seq<char>)
    ensures
        merged(m, updates).get(k) == match last_value(updates, k) {
            None => m.get(k),
            Some(v) => if v.len() == 0 {
                None
            } else {
                Some(v)
            },
        },
    decreases updates.len(),
{
    if updates.len() > 0 {
        merge_effect(m, updates.drop_last(), k);
    }
}

proof fn lemma_no_feed(s: Seq<char>)
    ensures
        forall|i: int| 0 <= i < line_seq(s).len() ==> !(#[trigger] line_seq(s)[i]).contains('\n'),
    decreases s.len(),
{
    lemma_first_index(s, '\n');
    let n = first_index(s, '\n') as int;
    if s.len() > 0 && n < s.len() {
        let rest = s.skip(n + 1);
        lemma_no_feed(rest);
        let head = without_cr(s.take(n));
        assert forall|i: int| 0 <= i < line_seq(s).len() implies !(#[trigger] line_seq(
            s,
        )[i]).contains('\n') by {
            if i == 0 {
                assert(line_seq(s)[0] == head);
                if head.contains('\n') {
                    let j = choose|j: int| 0 <= j < head.len() && head[j] == '\n';
                    assert(s[j] == '\n');
                }
            } else {
                assert(line_seq(s)[i] == line_seq(rest)[i - 1]);
            }
        }
    } else if s.len() > 0 {
        assert(line_seq(s) == seq![s]);
        if s.contains('\n') {
            let j = choose|j: int| 0 <= j < s.len() && s[j] == '\n';
            assert(s[j] != '\n');
        }
    }
}

proof fn lemma_line_pair_clean(line: Seq<char>)
    requires
        !line.contains('\n'),
    ensures
        forall|i: int|
            0 <= i < line_pair(line).len() ==> clean_pair(
                (#[trigger] line_pair(line)[i]).0,
                line_pair(line)[i].1,
            ),
{
    lemma_first_index(line, '=');
    let n = first_index(line, '=') as int;
    if n < line.len() {
        let k = line.take(n);
        let v = line.skip(n + 1);
        lemma_trimmed_part(k);
        lemma_trimmed_part(v);
        assert(!k.contains('\n')) by {
            if k.contains('\n') {
                let j = choose|j: int| 0 <= j < k.len() && k[j] == '\n';
                assert(line[j] == '\n');
            }
        }
        assert(!v.contains('\n')) by {
            if v.contains('\n') {
                let j = choose|j: int| 0 <= j < v.len() && v[j] == '\n';
                assert(line[j + n + 1] == '\n');
            }
        }
        assert(!k.contains('=')) by {
            if k.contains('=') {
                let j = choose|j: int| 0 <= j < k.len() && k[j] == '=';
                assert(line[j] != '=');
            }
        }
        assert(line_pair(line) == seq![(trimmed(k), trimmed(v))]);
    }
}

proof fn lemma_line_pairs_clean(rows: Seq<Seq<char>>)
    requires
        forall|i: int| 0 <= i < rows.len() ==> !(#[trigger] rows[i]).contains('\n'),
    ensures
        forall|i: int|
            0 <= i < line_pairs(rows).len() ==> clean_pair(
                (#[trigger] line_pairs(rows)[i]).0,
                line_pairs(rows)[i].1,
            ),
    decreases rows.len(),
{
    if rows.len() > 0 {
        let rest = rows.drop_first();
        assert(!rows[0].contains('\n'));
        assert forall|i: int| 0 <= i < rest.len() implies !(#[trigger] rest[i]).contains(
            '\n',
        ) by {
            assert(!rows[i + 1].contains('\n'));
        }
        lemma_line_pairs_clean(rest);
        lemma_line_pair_clean(rows.first());
        let a = line_pair(rows.first());
        let b = line_pairs(rest);
        assert forall|i: int| 0 <= i < line_pairs(rows).len() implies clean_pair(
            (#[trigger] line_pairs(rows)[i]).0,
            line_pairs(rows)[i].1,
        ) by {
            if i < a.len() {
                assert(line_pairs(rows)[i] == a[i]);
            } else {
                assert(line_pairs(rows)[i] == b[i - a.len()]);
            }
        }
    }
}

proof fn lemma_map_of_clean(pairs: Seq<Pair>)
    requires
        forall|i: int| 0 <= i < pairs.len() ==> clean_pair((#[trigger] pairs[i]).0, pairs[i].1),
    ensures
        clean(map_of(pairs)),
    decreases pairs.len(),
{
    if pairs.len() > 0 {
        let rest = pairs.drop_last();
        assert forall|i: int| 0 <= i < rest.len() implies clean_pair(
            (#[trigger] rest[i]).0,
            rest[i].1,
        ) by {
            assert(clean_pair(pairs[i].0, pairs[i].1));
        }
        lemma_map_of_clean(rest);
        assert(clean_pair(pairs[pairs.len() - 1].0, pairs[pairs.len() - 1].1));
    }
}

/// Whatever a file holds, what is read from it can be written back without
/// loss.
pub proof fn parsed_is_clean(content: Seq<char>)
    ensures
        clean(parsed_map(content)),
{
    lemma_no_feed(content);
    lemma_line_pairs_clean(line_seq(content));
    lemma_map_of_clean(line_pairs(line_seq(content)));
}

/// Clean changes to what was read from a file leave it clean, so that saving
/// it loses nothing.
pub proof fn saved_is_clean(content: Seq<char>, updates: Seq<Pair>)
    requires
        forall|i: int|
            0 <= i < updates.len() ==> clean_pair((#[trigger] updates[i]).0, updates[i].1),
    ensures
        clean(merged(parsed_map(content), updates)),
    decreases updates.len(),
{
    if updates.len() == 0 {
        parsed_is_clean(content);
    } else {
        let rest = updates.drop_last();
        assert forall|i: int| 0 <= i < rest.len() implies clean_pair(
            (#[trigger] rest[i]).0,
            rest[i].1,
        ) by {
            assert(clean_pair(updates[i].0, updates[i].1));
        }
        saved_is_clean(content, rest);
        assert(clean_pair(updates[updates.len() - 1].0, updates[updates.len() - 1].1));
    }
}

/// Keys and values.
pub struct KeyValues {
    entries: Vec<(String, String)>,
}

impl View for KeyValues {
    type V = Map<Seq<char>, Seq<char>>;

    closed spec fn view(&self) -> Map<Seq<char>, Seq<char>> {
        map_of(pair_views(self.entries@))
    }
}

impl KeyValues {
    /// No key stands twice.
    pub closed spec fn wf(&self) -> bool {
        distinct_keys(pair_views(self.entries@))
    }

    pub fn new() -> (r: Self)
        ensures
            r.wf(),
            r@ == Map::<Seq<char>, Seq<char>>::empty(),
    {
        KeyValues { entries: Vec::new() }
    }

    /// Where a key stands.
    fn position(&self, key: &str) -> (r: Option<usize>)
        requires
            self.wf(),
        ensures
            r matches Some(i) ==> i < self.entries@.len() && self.entries@[i as int].0@ == key@,
            r is None ==> forall|i: int|
                0 <= i < self.entries@.len() ==> (#[trigger] self.entries@[i]).0@ != key@,
    {
        let mut i: usize = 0;
        while i < self.entries.len()
            invariant
                i <= self.entries@.len(),
                forall|j: int| 0 <= j < i ==> (#[trigger] self.entries@[j]).0@ != key@,
            decreases self.entries@.len() - i,
        {
            if same_text(self.entries[i].0.as_str(), key) {
                return Some(i);
            }
            i += 1;
        }
        None
    }

    /// The value of a key.
    pub fn get(&self, key: &str) -> (r: Option<String>)
        requires
            self.wf(),
        ensures
            match r {
                Some(v) => self@.contains_pair(key@, v@),
                None => !self@.contains_key(key@),
            },
    {
        match self.position(key) {
            Some(i) => {
                proof {
                    lemma_map_of(pair_views(self.entries@), i as int);
                }
                Some(self.entries[i].1.clone())
            },
            None => {
                proof {
                    let pairs = pair_views(self.entries@);
                    assert forall|j: int| 0 <= j < pairs.len() implies (#[trigger] pairs[j]).0
                        != key@ by {
                        assert(self.entries@[j].0@ != key@);
                    }
                    lemma_map_of_absent(pairs, key@);
                }
                None
            },
        }
    }

    /// Sets the value of a key.
    pub fn set(&mut self, key: String, value: String)
        requires
            old(self).wf(),
        ensures
            final(self).wf(),
            final(self)@ == old(self)@.insert(key@, value@),
    {
        let ghost before = pair_views(self.entries@);
        match self.position(key.as_str()) {
            Some(i) => {
                let ghost k = key@;
                let ghost v = value@;
                self.entries.set(i, (key, value));
                proof {
                    let after = pair_views(self.entries@);
                    assert(after =~= before.update(i as int, (before[i as int].0, v)));
                    lemma_map_of_update(before, i as int, v);
                    assert forall|a: int, b: int| 0 <= a < b < after.len() implies (
                    #[trigger] after[a]).0 != (#[trigger] after[b]).0 by {
                        assert(before[a].0 != before[b].0);
                    }
                }
            },
            None => {
                let ghost k = key@;
                let ghost v = value@;
                let ghost stored = self.entries@;
                self.entries.push((key, value));
                proof {
                    let after = pair_views(self.entries@);
                    assert(after =~= before.push((k, v)));
                    assert(after.drop_last() =~= before);
                    assert forall|a: int, b: int| 0 <= a < b < after.len() implies (
                    #[trigger] after[a]).0 != (#[trigger] after[b]).0 by {
                        if b < before.len() {
                            assert(before[a].0 != before[b].0);
                        } else {
                            assert(stored[a].0@ != k);
                        }
                    }
                }
            },
        }
    }

    /// Removes a key.
    pub fn remove(&mut self, key: &str)
        requires
            old(self).wf(),
        ensures
            final(self).wf(),
            final(self)@ == old(self)@.remove(key@),
    {
        let ghost before = pair_views(self.entries@);
        match self.position(key) {
            Some(i) => {
                self.entries.remove(i);
                proof {
                    let after = pair_views(self.entries@);
                    assert(after =~= before.remove(i as int));
                    lemma_map_of_remove(before, i as int);
                    assert forall|a: int, b: int| 0 <= a < b < after.len() implies (
                    #[trigger] after[a]).0 != (#[trigger] after[b]).0 by {
                        let x = if a < i {
                            a
                        } else {
                            a + 1
                        };
                        let y = if b < i {
                            b
                        } else {
                            b + 1
                        };
                        assert(before[x].0 != before[y].0);
                    }
                }
            },
            None => {
                proof {
                    assert forall|j: int| 0 <= j < before.len() implies (#[trigger] before[j]).0
                        != key@ by {
                        assert(self.entries@[j].0@ != key@);
                    }
                    lemma_map_of_absent(before, key@);
                    assert(self@ =~= old(self)@.remove(key@));
                }
            },
        }
    }

    /// Merges changes. An empty value removes its key, so that a consumed
    /// enrollment code is cleared and not stored as blank.
    pub fn merge(&mut self, updates: Vec<(String, String)>)
        requires
            old(self).wf(),
        ensures
            final(self).wf(),
            final(self)@ == merged(old(self)@, pair_views(updates@)),
    {
        let ghost all = pair_views(updates@);
        let mut i: usize = 0;
        while i < updates.len()
            invariant
                i <= updates@.len(),
                all == pair_views(updates@),
                self.wf(),
                self@ == merged(old(self)@, all.take(i as int)),
            decreases updates@.len() - i,
        {
            let key = updates[i].0.clone();
            let value = updates[i].1.clone();
            proof {
                assert(all.take(i + 1).drop_last() =~= all.take(i as int));
                assert(all.take(i + 1).last() == (key@, value@));
                assert(value@.len() == 0 <==> value@ == ""@) by {
                    reveal_strlit("");
                    if value@.len() == 0 {
                        assert(value@ =~= ""@);
                    }
                }
            }
            if same_text(value.as_str(), "") {
                self.remove(key.as_str());
            } else {
                self.set(key, value);
            }
            i += 1;
        }
        assert(all.take(all.len() as int) =~= all);
    }

    /// The `key=value` lines, in some order.
    pub fn render(&self) -> (r: String)
        requires
            self.wf(),
        ensures
            exists|pairs: Seq<Pair>|
                distinct_keys(pairs) && map_of(pairs) == self@ && r@ == #[trigger] rendered(pairs),
            clean(self@) ==> parsed_map(r@) == self@,
    {
        let ghost all = pair_views(self.entries@);
        let mut i: usize = self.entries.len();
        let mut text: String = String::new();
        while i > 0
            invariant
                i <= self.entries@.len(),
                all == pair_views(self.entries@),
                text@ == rendered(all.skip(i as int)),
            decreases i,
        {
            i -= 1;
            let mut head = self.entries[i].0.clone();
            head.push('=');
            head.append(self.entries[i].1.as_str());
            head.push('\n');
            head.append(text.as_str());
            proof {
                let rest = all.skip(i as int);
                assert(rest.drop_first() =~= all.skip(i + 1));
                assert(rest.first() == all[i as int]);
                assert(head@ =~= rendered(rest));
            }
            text = head;
        }
        proof {
            assert(all.skip(0) =~= all);
            if clean(self@) {
                text_round_trip(all);
            }
        }
        text
    }
}

/// Merges changes into the text of a `key=value` file.
pub fn save_key_values(content: &str, updates: Vec<(String, String)>) -> (r: String)
    ensures
        clean(merged(parsed_map(content@), pair_views(updates@))) ==> parsed_map(r@) == merged(
            parsed_map(content@),
            pair_views(updates@),
        ),
        exists|pairs: Seq<Pair>|
            distinct_keys(pairs) && map_of(pairs) == merged(
                parsed_map(content@),
                pair_views(updates@),
            ) && r@ == #[trigger] rendered(pairs),
{
    let mut map = parse_key_value(content);
    map.merge(updates);
    map.render()
}

/// Reads `key=value` lines. Keys and values are trimmed, lines without `=` are
/// skipped, and of two lines with one key the later counts.
pub fn parse_key_value(content: &str) -> (r: KeyValues)
    ensures
        r.wf(),
        r@ == parsed_map(content@),
{
    let rows = lines(content);
    let ghost all = views(rows@);
    let mut out = KeyValues::new();
    let mut i: usize = 0;
    assert(all.take(0) =~= Seq::empty());
    while i < rows.len()
        invariant
            i <= rows@.len(),
            all == views(rows@),
            out.wf(),
            out@ == map_of(line_pairs(all.take(i as int))),
        decreases rows@.len() - i,
    {
        proof {
            assert(all.take(i + 1) =~= all.take(i as int).push(all[i as int]));
            lemma_line_pairs_push(all.take(i as int), all[i as int]);
        }
        let ghost done = line_pairs(all.take(i as int));
        match split_once(rows[i].as_str(), '=') {
            Some((k, v)) => {
                let key = trim(k.as_str());
                let value = trim(v.as_str());
                proof {
                    let next = done + line_pair(all[i as int]);
                    assert(next =~= done.push((key@, value@)));
                    assert(next.drop_last() =~= done);
                }
                out.set(key, value);
            },
            None => {
                assert(done + line_pair(all[i as int]) =~= done);
            },
        }
        i += 1;
    }
    assert(all.take(all.len() as int) =~= all);
    out
}

/// A line gives the key before its first equals sign and the value after it,
/// both without the white space round them. A line without one gives nothing.
pub proof fn line_gives_its_pair(k: Seq<char>, v: Seq<char>)
    requires
        !k.contains('='),
    ensures
        line_pair(k + seq!['='] + v) == seq![(trimmed(k), trimmed(v))],
        line_pair(k).len() == 0,
{
    split_undoes_joining(k, '=', v);
}

/// Of two lines with one key the later counts; a line concerns no other key.
/// The pairs of one text follow those of the text before it.
pub proof fn later_lines_count(pairs: Seq<Pair>, k: Seq<char>, v: Seq<char>, other: Seq<char>)
    requires
        other != k,
    ensures
        map_of(pairs.push((k, v))).get(k) == Some(v),
        map_of(pairs.push((k, v))).get(other) == map_of(pairs).get(other),
        last_value(pairs.push((k, v)), k) == Some(v),
        last_value(pairs.push((k, v)), other) == last_value(pairs, other),
        last_value(Seq::empty(), k) is None,
{
    assert(pairs.push((k, v)).drop_last() =~= pairs);
}

/// A value that is set is there, one that is set to nothing is gone, and no
/// other changes; of several changes the last one counts.
pub proof fn changes_take_effect(
    m: Map<Seq<char>, Seq<char>>,
    updates: Seq<Pair>,
    k: Seq<char>,
    v: Seq<char>,
    other: Seq<char>,
)
    requires
        v.len() > 0,
        other != k,
    ensures
        merged(m, updates.push((k, v))).get(k) == Some(v),
        merged(m, updates.push((k, Seq::empty()))).get(k) is None,
        merged(m, updates.push((k, v))).get(other) == merged(m, updates).get(other),
        merged(m, Seq::empty()) == m,
{
    assert(updates.push((k, v)).drop_last() =~= updates);
    assert(updates.push((k, Seq::empty())).drop_last() =~= updates);
}

} // verus!
