//! The agent's log files.

use vstd::prelude::*;

use crate::plane_model::SECOND;
use crate::text::{has_prefix, line_seq, lines, starts_with, views};

verus! {

/// Days that rotated agent logs are kept.
pub const LOG_RETENTION_DAYS: u64 = 7;

/// Log files that are read at a time.
pub const LOG_FILES_SHOWN: usize = 3;

/// A file and when it was modified, in seconds.
pub type FileTime = (Seq<char>, u64);

/// The names and times of files.
pub open spec fn file_views(v: Seq<(String, u64)>) -> Seq<FileTime> {
    Seq::new(v.len(), |i: int| (v[i].0@, v[i].1))
}

/// Puts a file before the first that is not newer.
pub open spec fn insert_newest(list: Seq<FileTime>, x: FileTime) -> Seq<FileTime>
    decreases list.len(),
{
    if list.len() == 0 || list.first().1 <= x.1 {
        seq![x] + list
    } else {
        seq![list.first()] + insert_newest(list.drop_first(), x)
    }
}

/// The files that are logs of the agent.
pub open spec fn agent_logs(files: Seq<FileTime>) -> Seq<FileTime> {
    files.filter(|f: FileTime| has_prefix(f.0, "agent.log"@))
}

/// The agent's log files, the newest first.
pub open spec fn newest_first(files: Seq<FileTime>) -> Seq<FileTime>
    decreases files.len(),
{
    if files.len() == 0 {
        Seq::empty()
    } else if has_prefix(files.last().0, "agent.log"@) {
        insert_newest(newest_first(files.drop_last()), files.last())
    } else {
        newest_first(files.drop_last())
    }
}

/// Whether files go from the newest to the oldest.
pub open spec fn newest_to_oldest(list: Seq<FileTime>) -> bool {
    forall|i: int, j: int| 0 <= i < j < list.len() ==> (#[trigger] list[i]).1 >= (
    #[trigger] list[j]).1
}

proof fn lemma_insert_newest(list: Seq<FileTime>, x: FileTime, n: int)
    requires
        0 <= n <= list.len(),
        forall|i: int| 0 <= i < n ==> (#[trigger] list[i]).1 > x.1,
        n < list.len() ==> list[n].1 <= x.1,
    ensures
        insert_newest(list, x) == list.insert(n, x),
    decreases n,
{
    if n == 0 {
        assert(insert_newest(list, x) =~= list.insert(0, x));
    } else {
        assert(list[0].1 > x.1);
        let rest = list.drop_first();
        assert forall|i: int| 0 <= i < n - 1 implies (#[trigger] rest[i]).1 > x.1 by {
            assert(list[i + 1].1 > x.1);
        }
        lemma_insert_newest(rest, x, n - 1);
        assert(insert_newest(list, x) =~= list.insert(n, x));
    }
}

/// The files of the log view go from the newest to the oldest, and are the
/// agent's log files, each as often as it was given.
pub proof fn newest_first_sorts(files: Seq<FileTime>)
    ensures
        newest_to_oldest(newest_first(files)),
        newest_first(files).to_multiset() == agent_logs(files).to_multiset(),
    decreases files.len(),
{
    reveal(Seq::filter);
    if files.len() > 0 {
        let rest = files.drop_last();
        newest_first_sorts(rest);
        let list = newest_first(rest);
        let x = files.last();
        if has_prefix(x.0, "agent.log"@) {
            let n = lemma_place(list, x);
            lemma_insert_newest(list, x, n);
            broadcast use vstd::seq_lib::group_to_multiset_ensures;

            assert(list.insert(n, x).to_multiset() =~= list.to_multiset().insert(x)) by {
                vstd::seq_lib::to_multiset_insert(list, n, x);
            }
            assert(agent_logs(files) == agent_logs(rest).push(x));
            assert(agent_logs(rest).push(x).to_multiset() =~= agent_logs(rest).to_multiset().insert(
                x,
            ));
        } else {
            assert(agent_logs(files) == agent_logs(rest));
        }
    } else {
        assert(newest_first(files) =~= agent_logs(files));
    }
}

proof fn lemma_place(list: Seq<FileTime>, x: FileTime) -> (n: int)
    requires
        newest_to_oldest(list),
    ensures
        0 <= n <= list.len(),
        forall|i: int| 0 <= i < n ==> (#[trigger] list[i]).1 > x.1,
        n < list.len() ==> list[n].1 <= x.1,
    decreases list.len(),
{
    if list.len() == 0 || list.last().1 > x.1 {
        if list.len() > 0 {
            assert forall|i: int| 0 <= i < list.len() implies (#[trigger] list[i]).1 > x.1 by {
                if i < list.len() - 1 {
                    assert(list[i].1 >= list[list.len() - 1].1);
                }
            }
        }
        list.len() as int
    } else {
        let rest = list.drop_last();
        assert forall|i: int, j: int| 0 <= i < j < rest.len() implies (#[trigger] rest[i]).1 >= (
        #[trigger] rest[j]).1 by {
            assert(list[i].1 >= list[j].1);
        }
        let n = lemma_place(rest, x);
        assert forall|i: int| 0 <= i < n implies (#[trigger] list[i]).1 > x.1 by {
            assert(rest[i].1 > x.1);
        }
        n
    }
}

/// Picks the agent's log files and puts the newest first.
pub fn sorted_log_files(files: &Vec<(String, u64)>) -> (r: Vec<(String, u64)>)
    ensures
        file_views(r@) == newest_first(file_views(files@)),
{
    let ghost all = file_views(files@);
    let mut out: Vec<(String, u64)> = Vec::new();
    let mut i: usize = 0;
    while i < files.len()
        invariant
            i <= files@.len(),
            all == file_views(files@),
            file_views(out@) == newest_first(all.take(i as int)),
        decreases files@.len() - i,
    {
        let ghost done = all.take(i as int);
        proof {
            assert(all.take(i + 1).drop_last() =~= done);
            assert(all.take(i + 1).last() == all[i as int]);
        }
        if starts_with(files[i].0.as_str(), "agent.log") {
            let time: u64 = files[i].1;
            let mut at: usize = 0;
            while at < out.len() && out[at].1 > time
                invariant
                    at <= out@.len(),
                    forall|j: int| 0 <= j < at ==> (#[trigger] out@[j]).1 > time,
                decreases out@.len() - at,
            {
                at += 1;
            }
            let ghost prior = out@;
            let name = files[i].0.clone();
            out.insert(at, (name, time));
            proof {
                let list = file_views(prior);
                assert forall|j: int| 0 <= j < at implies (#[trigger] list[j]).1 > time by {
                    assert(prior[j].1 > time);
                }
                lemma_insert_newest(list, all[i as int], at as int);
                assert(file_views(out@) =~= list.insert(at as int, all[i as int]));
            }
        }
        i += 1;
    }
    assert(all.take(all.len() as int) =~= all);
    out
}

/// Whether a file is a rotated agent log that is older than the retention.
pub fn is_expired_log(name: &str, age_nanos: u128) -> (r: bool)
    ensures
        r == (has_prefix(name@, "agent.log."@) && age_nanos > LOG_RETENTION_DAYS * 86_400 * SECOND),
        r == log_expired(name@, age_nanos),
{
    starts_with(name, "agent.log.") && age_nanos > 604_800_000_000_000
}

/// The lines of texts, one text after the other.
pub open spec fn all_lines(texts: Seq<Seq<char>>) -> Seq<Seq<char>>
    decreases texts.len(),
{
    if texts.len() == 0 {
        Seq::empty()
    } else {
        all_lines(texts.drop_last()) + line_seq(texts.last())
    }
}

/// The last `n` of a sequence.
pub open spec fn last_of<T>(s: Seq<T>, n: nat) -> Seq<T> {
    if s.len() <= n {
        s
    } else {
        s.skip(s.len() - n)
    }
}

/// The last lines of the newest files, the oldest of these first, so that they
/// read in the order they were written. The files are given newest first.
pub open spec fn log_tail(contents: Seq<Seq<char>>, n: nat) -> Seq<Seq<char>> {
    let shown = if contents.len() <= LOG_FILES_SHOWN {
        contents
    } else {
        contents.take(LOG_FILES_SHOWN as int)
    };
    last_of(all_lines(shown.reverse()), n)
}

fn append_lines(out: &mut Vec<String>, content: &str)
    ensures
        views(final(out)@) == views(old(out)@) + line_seq(content@),
{
    let rows = lines(content);
    let mut i: usize = 0;
    while i < rows.len()
        invariant
            i <= rows@.len(),
            views(rows@) == line_seq(content@),
            views(out@) == views(old(out)@) + views(rows@).take(i as int),
        decreases rows@.len() - i,
    {
        let ghost prior = out@;
        out.push(rows[i].clone());
        assert(views(out@) =~= views(prior).push(rows@[i as int]@));
        i += 1;
    }
    assert(views(rows@).take(rows@.len() as int) =~= views(rows@));
}

/// The copy of texts from an index on.
fn copy_from(rows: &Vec<String>, from: usize) -> (r: Vec<String>)
    requires
        from <= rows@.len(),
    ensures
        views(r@) == views(rows@).skip(from as int),
{
    let mut out: Vec<String> = Vec::new();
    let mut i: usize = from;
    while i < rows.len()
        invariant
            from <= i <= rows@.len(),
            views(out@) == views(rows@).subrange(from as int, i as int),
        decreases rows@.len() - i,
    {
        let ghost prior = out@;
        out.push(rows[i].clone());
        assert(views(out@) =~= views(prior).push(rows@[i as int]@));
        i += 1;
    }
    assert(views(rows@).subrange(from as int, rows@.len() as int) =~= views(rows@).skip(
        from as int,
    ));
    out
}

/// The last lines of the newest log files.
pub fn tail_lines(contents: &Vec<String>, n: usize) -> (r: Vec<String>)
    ensures
        views(r@) == log_tail(views(contents@), n as nat),
{
    let count: usize = if contents.len() <= LOG_FILES_SHOWN {
        contents.len()
    } else {
        LOG_FILES_SHOWN
    };
    let ghost shown = views(contents@).take(count as int);
    let ghost rev = shown.reverse();
    let mut combined: Vec<String> = Vec::new();
    let mut i: usize = count;
    assert(rev.take(0) =~= Seq::empty());
    while i > 0
        invariant
            i <= count <= contents@.len(),
            shown == views(contents@).take(count as int),
            rev == shown.reverse(),
            views(combined@) == all_lines(rev.take(count - i)),
        decreases i,
    {
        i -= 1;
        append_lines(&mut combined, contents[i].as_str());
        proof {
            let k = count - i;
            assert(rev.take(k).drop_last() =~= rev.take(k - 1));
            assert(rev.take(k).last() == contents@[i as int]@);
        }
    }
    proof {
        assert(rev.take(count as int) =~= rev);
        if contents@.len() <= LOG_FILES_SHOWN {
            assert(shown =~= views(contents@));
        }
    }
    let from: usize = if combined.len() > n {
        combined.len() - n
    } else {
        0
    };
    assert(views(combined@).skip(0) =~= views(combined@));
    copy_from(&combined, from)
}

/// The lines that a file has gained over those printed, and how many are
/// printed then.
pub fn new_lines(content: &str, printed: usize) -> (r: (Vec<String>, usize))
    ensures
        line_seq(content@).len() > printed ==> views(r.0@) == line_seq(content@).skip(
            printed as int,
        ) && r.1 == line_seq(content@).len(),
        line_seq(content@).len() <= printed ==> r.0@.len() == 0 && r.1 == printed,
        (views(r.0@), r.1 as nat) == gained(line_seq(content@), printed as nat),
{
    let rows = lines(content);
    assert(views(rows@).len() == rows@.len());
    if rows.len() > printed {
        (copy_from(&rows, printed), rows.len())
    } else {
        (Vec::new(), printed)
    }
}

/// The number of lines of a text.
pub fn line_count(content: &str) -> (r: usize)
    ensures
        r == line_seq(content@).len(),
{
    let rows = lines(content);
    assert(views(rows@).len() == rows@.len());
    rows.len()
}

/// Whether a log file is to be removed.
pub open spec fn log_expired(name: Seq<char>, age_nanos: u128) -> bool {
    has_prefix(name, "agent.log."@) && age_nanos > LOG_RETENTION_DAYS * 86_400 * SECOND
}

/// The lines to print, and how many are printed then.
pub open spec fn gained(rows: Seq<Seq<char>>, printed: nat) -> (Seq<Seq<char>>, nat) {
    if rows.len() > printed {
        (rows.skip(printed as int), rows.len())
    } else {
        (Seq::empty(), printed)
    }
}

/// A rotated log is removed once it is older than seven days, and not before;
/// the log that is written to is never removed, nor is any other file.
pub proof fn logs_kept_for_seven_days(suffix: Seq<char>, name: Seq<char>, age_nanos: u128)
    ensures
        log_expired("agent.log."@ + suffix, age_nanos) <==> age_nanos > 604_800_000_000_000,
        !log_expired("agent.log"@, age_nanos),
        log_expired(name, age_nanos) ==> name.len() >= 10 && name.take(10) == "agent.log."@,
{
    reveal_strlit("agent.log");
    reveal_strlit("agent.log.");
    assert(("agent.log."@ + suffix).take(10) =~= "agent.log."@);
}

/// Lines are printed once: what a file gains is printed, and then nothing until
/// it gains more.
pub proof fn lines_printed_once(rows: Seq<Seq<char>>, more: Seq<Seq<char>>)
    requires
        more.len() > 0,
    ensures
        gained(rows + more, rows.len()) == (more, rows.len() + more.len()),
        gained(rows, rows.len()) == (Seq::<Seq<char>>::empty(), rows.len()),
        gained(rows, (rows.len() + more.len()) as nat).1 == rows.len() + more.len(),
        gained(rows, 0).0 == rows,
{
    assert((rows + more).skip(rows.len() as int) =~= more);
    assert(rows.skip(0) =~= rows);
}

/// A log file newer than the others comes first, also before one that is as
/// new; a file that is no agent log is left out.
pub proof fn newest_file_comes_first(files: Seq<FileTime>, x: FileTime, suffix: Seq<char>)
    requires
        forall|i: int| 0 <= i < files.len() ==> (#[trigger] files[i]).1 <= x.1,
    ensures
        x.0 == "agent.log"@ + suffix ==> newest_first(files.push(x)) == seq![x] + newest_first(
            files,
        ),
        x.0.len() < 9 || x.0.take(9) != "agent.log"@ ==> newest_first(files.push(x))
            == newest_first(files),
        newest_first(Seq::empty()).len() == 0,
{
    reveal_strlit("agent.log");
    assert(files.push(x).drop_last() =~= files);
    if x.0 == "agent.log"@ + suffix {
        assert(x.0.take(9) =~= "agent.log"@);
        lemma_times_bounded(files, x.1);
        let list = newest_first(files);
        if list.len() > 0 {
            assert(list[0].1 <= x.1);
        }
    }
}

proof fn lemma_times_bounded(files: Seq<FileTime>, top: u64)
    requires
        forall|i: int| 0 <= i < files.len() ==> (#[trigger] files[i]).1 <= top,
    ensures
        forall|i: int|
            0 <= i < newest_first(files).len() ==> (#[trigger] newest_first(files)[i]).1 <= top,
    decreases files.len(),
{
    if files.len() > 0 {
        let rest = files.drop_last();
        assert forall|i: int| 0 <= i < rest.len() implies (#[trigger] rest[i]).1 <= top by {
            assert(files[i].1 <= top);
        }
        lemma_times_bounded(rest, top);
        assert(files[files.len() - 1].1 <= top);
        newest_first_sorts(rest);
        let n = lemma_place(newest_first(rest), files.last());
        lemma_insert_newest(newest_first(rest), files.last(), n);
    }
}

/// The tail of the log is at most so many lines, and as many as there are in
/// the three newest files up to that. Where the newest file has enough, they
/// are its last ones; else those of the older files come before. Files beyond
/// the third do not count.
pub proof fn tail_is_newest_lines(contents: Seq<Seq<char>>, newest: Seq<char>, n: nat)
    ensures
        log_tail(contents, n).len() <= n,
        log_tail(seq![newest] + contents, n) == if line_seq(newest).len() >= n {
            line_seq(newest).skip(line_seq(newest).len() - n)
        } else {
            last_of(
                all_lines(at_most_two(contents).reverse()),
                (n - line_seq(newest).len()) as nat,
            ) + line_seq(newest)
        },
        contents.len() > 3 ==> log_tail(contents, n) == log_tail(contents.take(3), n),
{
    let all = seq![newest] + contents;
    let shown = if all.len() <= 3 {
        all
    } else {
        all.take(3)
    };
    let older = at_most_two(contents);
    assert(shown =~= seq![newest] + older);
    assert(shown.reverse() =~= older.reverse().push(newest));
    assert(shown.reverse().drop_last() =~= older.reverse());
    let a = all_lines(older.reverse());
    let b = line_seq(newest);
    assert(all_lines(shown.reverse()) == a + b);
    if b.len() >= n {
        assert((a + b).skip(a.len() + b.len() - n) =~= b.skip(b.len() - n));
    } else {
        let k = (n - b.len()) as nat;
        if a.len() > k {
            assert((a + b).skip(a.len() - k) =~= a.skip(a.len() - k) + b);
        }
    }
    if contents.len() > 3 {
        assert(contents.take(3).len() == 3);
    }
}

/// The first two of a list, or all of a shorter one.
pub open spec fn at_most_two(contents: Seq<Seq<char>>) -> Seq<Seq<char>> {
    if contents.len() <= 2 {
        contents
    } else {
        contents.take(2)
    }
}

} // verus!
