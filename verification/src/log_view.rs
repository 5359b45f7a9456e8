//! The log view of the console: its own log and the agent's, merged, and the
//! connection settings it edits.

use vstd::prelude::*;

use crate::console::{from_lossy, lossy_text};
use crate::key_values::lemma_trimmed_last;
use crate::text::{
    chars_of, contains_text, has_prefix, join_from, joined, joining_in_parts, lemma_first_index_is,
    lemma_trimmed_part, lemma_trimmed_same, line_seq, lines, lines_end_at_feeds, occurs,
    same_text, starts_with, text_of, trim, trimmed, views, white_space, word_seq, words,
    words_stand_between_spaces,
};
use crate::token::{to_upper, upper_case};

verus! {

/// The size from which the console's log is rolled, in bytes.
pub const GUI_LOG_MAX: u64 = 1_048_576;

/// A line of the log view.
pub struct LogLine {
    pub timestamp: String,
    pub level: String,
    pub source: String,
    pub message: String,
    pub epoch_ms: i64,
}

/// What a line of the log view says.
#[verifier::ext_equal]
pub struct LogLineView {
    pub timestamp: Seq<char>,
    pub level: Seq<char>,
    pub source: Seq<char>,
    pub message: Seq<char>,
    pub epoch_ms: i64,
}

impl View for LogLine {
    type V = LogLineView;

    open spec fn view(&self) -> LogLineView {
        LogLineView {
            timestamp: self.timestamp@,
            level: self.level@,
            source: self.source@,
            message: self.message@,
            epoch_ms: self.epoch_ms,
        }
    }
}

impl Clone for LogLine {
    fn clone(&self) -> (r: Self)
        ensures
            r == *self,
    {
        LogLine {
            timestamp: self.timestamp.clone(),
            level: self.level.clone(),
            source: self.source.clone(),
            message: self.message.clone(),
            epoch_ms: self.epoch_ms,
        }
    }
}

/// What lines say.
pub open spec fn log_views(v: Seq<LogLine>) -> Seq<LogLineView> {
    Seq::new(v.len(), |i: int| v[i]@)
}

/// The milliseconds since 1970 that `chrono::DateTime::parse_from_rfc3339`
/// finds in a text, if it takes it.
pub uninterp spec fn rfc3339_millis(s: Seq<char>) -> Option<i64>;

/// The milliseconds since 1970 of an RFC 3339 time, by
/// `chrono::DateTime::parse_from_rfc3339`. Which texts it takes, and what each
/// stands for, is left to that function.
#[verifier::external_body]
fn parse_rfc3339(s: &str) -> (r: Option<i64>)
    ensures
        r == rfc3339_millis(s@),
{
    match chrono::DateTime::parse_from_rfc3339(s) {
        Ok(time) => Some(time.timestamp_millis()),
        Err(_) => None,
    }
}

/// What `str::to_lowercase` makes of a text.
pub uninterp spec fn lower_case(s: Seq<char>) -> Seq<char>;

/// The lower-case form of a text, by `str::to_lowercase`.
#[verifier::external_body]
fn to_lower(s: &str) -> (r: String)
    ensures
        r@ == lower_case(s@),
{
    s.to_lowercase()
}

/// The line for an entry: none without a message.
pub open spec fn log_entry(
    timestamp: Seq<char>,
    level: Seq<char>,
    source: Seq<char>,
    message: Seq<char>,
    epoch: Option<i64>,
) -> Seq<LogLineView> {
    if message.len() == 0 {
        Seq::empty()
    } else {
        seq![
            LogLineView {
                timestamp,
                level: upper_case(level),
                source,
                message,
                epoch_ms: match epoch {
                    Some(ms) => ms,
                    None => 0,
                },
            },
        ]
    }
}

/// Appends an entry whose time has been read, unless its message is empty.
pub fn push_entry(
    entries: &mut Vec<LogLine>,
    timestamp: &str,
    level: &str,
    source: &str,
    message: &str,
    epoch: Option<i64>,
)
    ensures
        log_views(final(entries)@) == log_views(old(entries)@) + log_entry(
            timestamp@,
            level@,
            source@,
            message@,
            epoch,
        ),
{
    let text = chars_of(message);
    if text.len() == 0 {
        assert(log_views(entries@) =~= log_views(old(entries)@) + Seq::<LogLineView>::empty());
        return;
    }
    let epoch_ms: i64 = match epoch {
        Some(ms) => ms,
        None => 0,
    };
    entries.push(
        LogLine {
            timestamp: timestamp.to_owned(),
            level: to_upper(level),
            source: source.to_owned(),
            message: message.to_owned(),
            epoch_ms,
        },
    );
    assert(log_views(entries@) =~= log_views(old(entries)@) + log_entry(
        timestamp@,
        level@,
        source@,
        message@,
        epoch,
    ));
}

/// Appends an entry, unless its message is empty. A time that is not RFC 3339
/// counts as the start of 1970.
pub fn push_log(
    entries: &mut Vec<LogLine>,
    timestamp: &str,
    level: &str,
    source: &str,
    message: &str,
)
    ensures
        log_views(final(entries)@) == log_views(old(entries)@) + log_entry(
            timestamp@,
            level@,
            source@,
            message@,
            rfc3339_millis(timestamp@),
        ),
{
    let epoch = parse_rfc3339(timestamp);
    push_entry(entries, timestamp, level, source, message, epoch)
}

/// The entry in a line: a time, a level, further words up to `skip` of which
/// nothing is kept, and the message.
pub open spec fn line_entry(line: Seq<char>, skip: nat, source: Seq<char>) -> Seq<LogLineView> {
    let parts = word_seq(line);
    if parts.len() < skip {
        Seq::empty()
    } else {
        log_entry(
            parts[0],
            parts[1],
            source,
            joined(parts.skip(skip as int), " "@),
            rfc3339_millis(parts[0]),
        )
    }
}

/// The entries in lines.
pub open spec fn line_entries(
    rows: Seq<Seq<char>>,
    skip: nat,
    source: Seq<char>,
) -> Seq<LogLineView>
    decreases rows.len(),
{
    if rows.len() == 0 {
        Seq::empty()
    } else {
        line_entries(rows.drop_last(), skip, source) + line_entry(rows.last(), skip, source)
    }
}

fn read_lines(content: &str, skip: usize, source: &str, entries: &mut Vec<LogLine>)
    requires
        skip >= 2,
    ensures
        log_views(final(entries)@) == log_views(old(entries)@) + line_entries(
            line_seq(content@),
            skip as nat,
            source@,
        ),
{
    let rows = lines(content);
    let ghost all = views(rows@);
    let mut i: usize = 0;
    assert(log_views(entries@) =~= log_views(old(entries)@) + line_entries(
        all.take(0),
        skip as nat,
        source@,
    ));
    while i < rows.len()
        invariant
            i <= rows@.len(),
            skip >= 2,
            all == views(rows@),
            log_views(entries@) == log_views(old(entries)@) + line_entries(
                all.take(i as int),
                skip as nat,
                source@,
            ),
        decreases rows@.len() - i,
    {
        let parts = words(rows[i].as_str());
        let ghost row = rows@[i as int]@;
        let ghost before = log_views(entries@);
        assert(views(parts@).len() == parts@.len());
        if parts.len() >= skip {
            let message = join_from(&parts, skip, " ");
            push_log(entries, parts[0].as_str(), parts[1].as_str(), source, message.as_str());
        }
        proof {
            assert(all.take(i + 1).drop_last() =~= all.take(i as int));
            assert(all.take(i + 1).last() == row);
            assert(log_views(entries@) =~= before + line_entry(row, skip as nat, source@));
            assert(log_views(entries@) =~= log_views(old(entries)@) + line_entries(
                all.take(i + 1),
                skip as nat,
                source@,
            ));
        }
        i += 1;
    }
    assert(all.take(all.len() as int) =~= all);
}

/// Appends the entries of the console's own log.
pub fn read_gui_log(content: &str, entries: &mut Vec<LogLine>)
    ensures
        log_views(final(entries)@) == log_views(old(entries)@) + line_entries(
            line_seq(content@),
            2,
            "GUI"@,
        ),
        log_views(final(entries)@) == log_views(old(entries)@) + gui_entries(content@),
{
    read_lines(content, 2, "GUI", entries)
}

/// Appends the entries of an agent log, whose third word is where the message
/// comes from.
pub fn read_agent_log(content: &str, entries: &mut Vec<LogLine>)
    ensures
        log_views(final(entries)@) == log_views(old(entries)@) + line_entries(
            line_seq(content@),
            3,
            "agent"@,
        ),
        log_views(final(entries)@) == log_views(old(entries)@) + agent_entries(content@),
{
    read_lines(content, 3, "agent", entries)
}

/// Puts an entry before the first that is older.
pub open spec fn insert_entry(list: Seq<LogLineView>, x: LogLineView) -> Seq<LogLineView>
    decreases list.len(),
{
    if list.len() == 0 || list.first().epoch_ms < x.epoch_ms {
        seq![x] + list
    } else {
        seq![list.first()] + insert_entry(list.drop_first(), x)
    }
}

/// Entries from the newest to the oldest; of equal ones, the first given comes
/// first.
pub open spec fn newest_entries(list: Seq<LogLineView>) -> Seq<LogLineView>
    decreases list.len(),
{
    if list.len() == 0 {
        Seq::empty()
    } else {
        insert_entry(newest_entries(list.drop_last()), list.last())
    }
}

/// The first `n` of a sequence.
pub open spec fn at_most<T>(s: Seq<T>, n: nat) -> Seq<T> {
    if s.len() <= n {
        s
    } else {
        s.take(n as int)
    }
}

/// The number of entries that a request gets.
pub open spec fn entry_limit(requested: Option<usize>) -> nat {
    match requested {
        None => 200,
        Some(n) => if n < 1 {
            1
        } else if n > 500 {
            500
        } else {
            n as nat
        },
    }
}

/// Whether entries go from the newest to the oldest.
pub open spec fn entries_sorted(list: Seq<LogLineView>) -> bool {
    forall|i: int, j: int|
        0 <= i < j < list.len() ==> (#[trigger] list[i]).epoch_ms >= (#[trigger] list[j]).epoch_ms
}

proof fn lemma_insert_entry(list: Seq<LogLineView>, x: LogLineView, n: int)
    requires
        0 <= n <= list.len(),
        forall|i: int| 0 <= i < n ==> (#[trigger] list[i]).epoch_ms >= x.epoch_ms,
        n < list.len() ==> list[n].epoch_ms < x.epoch_ms,
    ensures
        insert_entry(list, x) == list.insert(n, x),
    decreases n,
{
    if n == 0 {
        assert(insert_entry(list, x) =~= list.insert(0, x));
    } else {
        assert(list[0].epoch_ms >= x.epoch_ms);
        let rest = list.drop_first();
        assert forall|i: int| 0 <= i < n - 1 implies (#[trigger] rest[i]).epoch_ms
            >= x.epoch_ms by {
            assert(list[i + 1].epoch_ms >= x.epoch_ms);
        }
        lemma_insert_entry(rest, x, n - 1);
        assert(insert_entry(list, x) =~= list.insert(n, x));
    }
}

proof fn lemma_entry_place(list: Seq<LogLineView>, x: LogLineView) -> (n: int)
    requires
        entries_sorted(list),
    ensures
        0 <= n <= list.len(),
        forall|i: int| 0 <= i < n ==> (#[trigger] list[i]).epoch_ms >= x.epoch_ms,
        n < list.len() ==> list[n].epoch_ms < x.epoch_ms,
    decreases list.len(),
{
    if list.len() == 0 || list.last().epoch_ms >= x.epoch_ms {
        assert forall|i: int| 0 <= i < list.len() implies (#[trigger] list[i]).epoch_ms
            >= x.epoch_ms by {
            if i < list.len() - 1 {
                assert(list[i].epoch_ms >= list[list.len() - 1].epoch_ms);
            }
        }
        list.len() as int
    } else {
        let rest = list.drop_last();
        assert forall|i: int, j: int| 0 <= i < j < rest.len() implies (#[trigger] rest[i]).epoch_ms
            >= (#[trigger] rest[j]).epoch_ms by {
            assert(list[i].epoch_ms >= list[j].epoch_ms);
        }
        let n = lemma_entry_place(rest, x);
        assert forall|i: int| 0 <= i < n implies (#[trigger] list[i]).epoch_ms >= x.epoch_ms by {
            assert(rest[i].epoch_ms >= x.epoch_ms);
        }
        n
    }
}

/// The merged log goes from the newest to the oldest entry and holds the
/// entries given, each as often as given.
pub proof fn newest_entries_sort(list: Seq<LogLineView>)
    ensures
        entries_sorted(newest_entries(list)),
        newest_entries(list).to_multiset() == list.to_multiset(),
    decreases list.len(),
{
    if list.len() > 0 {
        let rest = list.drop_last();
        let x = list.last();
        newest_entries_sort(rest);
        let done = newest_entries(rest);
        let n = lemma_entry_place(done, x);
        lemma_insert_entry(done, x, n);
        broadcast use vstd::seq_lib::group_to_multiset_ensures;

        vstd::seq_lib::to_multiset_insert(done, n, x);
        assert(list =~= rest.push(x));
        assert(list.to_multiset() =~= rest.to_multiset().insert(x));
    } else {
        assert(newest_entries(list) =~= list);
    }
}

/// Only the first entries of a list decide the first entries after an
/// insertion.
proof fn lemma_insert_cut(list: Seq<LogLineView>, x: LogLineView, n: nat)
    ensures
        at_most(insert_entry(list, x), n) == at_most(insert_entry(at_most(list, n), x), n),
        insert_entry(list, x).len() == list.len() + 1,
    decreases list.len(),
{
    let cut = at_most(list, n);
    if list.len() == 0 || list.first().epoch_ms < x.epoch_ms {
        if n == 0 {
            assert(cut =~= Seq::empty());
        } else if list.len() > 0 {
            assert(cut.first() == list.first());
        }
        assert(at_most(insert_entry(list, x), n) =~= at_most(insert_entry(cut, x), n));
    } else {
        let rest = list.drop_first();
        if n == 0 {
            lemma_insert_cut(rest, x, 0);
            assert(at_most(insert_entry(list, x), n) =~= Seq::empty());
            assert(at_most(insert_entry(cut, x), n) =~= Seq::empty()) by {
                assert(cut =~= Seq::empty());
            }
        } else {
            lemma_insert_cut(rest, x, (n - 1) as nat);
            let inner = insert_entry(rest, x);
            assert(cut.first() == list.first());
            assert(cut.drop_first() =~= at_most(rest, (n - 1) as nat));
            let small = insert_entry(cut.drop_first(), x);
            assert(insert_entry(list, x) == seq![list.first()] + inner);
            assert(insert_entry(cut, x) == seq![list.first()] + small);
            assert(at_most(seq![list.first()] + inner, n) =~= seq![list.first()] + at_most(
                inner,
                (n - 1) as nat,
            ));
            assert(at_most(seq![list.first()] + small, n) =~= seq![list.first()] + at_most(
                small,
                (n - 1) as nat,
            ));
        }
    }
}

/// The newest entries, the newest first.
pub fn read_logs(entries: &Vec<LogLine>, requested: Option<usize>) -> (r: Vec<LogLine>)
    ensures
        log_views(r@) == at_most(newest_entries(log_views(entries@)), entry_limit(requested)),
{
    let limit: usize = match requested {
        None => 200,
        Some(n) => if n < 1 {
            1
        } else if n > 500 {
            500
        } else {
            n
        },
    };
    let ghost all = log_views(entries@);
    let mut out: Vec<LogLine> = Vec::new();
    let mut i: usize = 0;
    assert(log_views(out@) =~= at_most(newest_entries(all.take(0)), limit as nat));
    while i < entries.len()
        invariant
            i <= entries@.len(),
            all == log_views(entries@),
            out@.len() <= limit <= 500,
            log_views(out@) == at_most(newest_entries(all.take(i as int)), limit as nat),
        decreases entries@.len() - i,
    {
        let epoch: i64 = entries[i].epoch_ms;
        let mut at: usize = 0;
        while at < out.len() && out[at].epoch_ms >= epoch
            invariant
                at <= out@.len(),
                forall|j: int| 0 <= j < at ==> (#[trigger] out@[j]).epoch_ms >= epoch,
            decreases out@.len() - at,
        {
            at += 1;
        }
        let ghost prior = out@;
        let ghost x = all[i as int];
        let entry = entries[i].clone();
        out.insert(at, entry);
        proof {
            let list = log_views(prior);
            assert forall|j: int| 0 <= j < at implies (#[trigger] list[j]).epoch_ms
                >= x.epoch_ms by {
                assert(prior[j].epoch_ms >= epoch);
            }
            if at < prior.len() {
                assert(list[at as int].epoch_ms < epoch);
            }
            lemma_insert_entry(list, x, at as int);
            assert(log_views(out@) =~= list.insert(at as int, x));
            lemma_insert_cut(newest_entries(all.take(i as int)), x, limit as nat);
            assert(all.take(i + 1).drop_last() =~= all.take(i as int));
            assert(all.take(i + 1).last() == x);
        }
        let ghost full = out@;
        if out.len() > limit {
            out.truncate(limit);
        }
        proof {
            assert(log_views(out@) =~= at_most(log_views(full), limit as nat));
        }
        i += 1;
    }
    assert(all.take(all.len() as int) =~= all);
    out
}

/// The value of a key in the connection settings: what follows `=` on the
/// first line that starts with the key and `=`.
pub open spec fn config_value(rows: Seq<Seq<char>>, key: Seq<char>) -> Option<Seq<char>>
    decreases rows.len(),
{
    if rows.len() == 0 {
        None
    } else if has_prefix(rows.first(), key.push('=')) {
        Some(trimmed(rows.first().skip(key.len() as int + 1)))
    } else {
        config_value(rows.drop_first(), key)
    }
}

/// The text of an optional value, empty without one.
pub open spec fn or_empty(v: Option<Seq<char>>) -> Seq<char> {
    match v {
        Some(s) => s,
        None => Seq::empty(),
    }
}

/// Reads a key in the connection settings.
pub fn read_config_value(content: &str, key: &str) -> (r: Option<String>)
    ensures
        match r {
            Some(v) => config_value(line_seq(content@), key@) == Some(v@),
            None => config_value(line_seq(content@), key@) is None,
        },
{
    let rows = lines(content);
    let ghost all = views(rows@);
    let mut lead = key.to_owned();
    lead.push('=');
    let name = chars_of(key);
    let mut i: usize = 0;
    assert(all.skip(0) =~= all);
    while i < rows.len()
        invariant
            i <= rows@.len(),
            all == views(rows@),
            all == line_seq(content@),
            lead@ == key@.push('='),
            name@ == key@,
            config_value(all.skip(i as int), key@) == config_value(all, key@),
        decreases rows@.len() - i,
    {
        let ghost rest = all.skip(i as int);
        assert(rest.first() == rows@[i as int]@);
        assert(rest.drop_first() =~= all.skip(i + 1));
        if starts_with(rows[i].as_str(), lead.as_str()) {
            let row = chars_of(rows[i].as_str());
            let end: usize = row.len();
            assert(name@.len() + 1 <= end);
            let value = text_of(row.as_slice(), name.len() + 1, end);
            assert(value@ =~= rest.first().skip(key@.len() as int + 1));
            return Some(trim(value.as_str()));
        }
        i += 1;
    }
    None
}

/// The connection settings that are written: the server, and the token, which
/// stays as it was where a blank one is given.
pub open spec fn env_text(
    server_url: Seq<char>,
    token: Seq<char>,
    stored: Option<Seq<char>>,
) -> Seq<char> {
    let kept = if trimmed(token).len() == 0 {
        or_empty(stored)
    } else {
        trimmed(token)
    };
    "TUNNEL_SERVER_URL="@ + trimmed(server_url) + "\nTUNNEL_TOKEN="@ + kept + "\n"@
}

/// The connection settings to write over `content`.
pub fn save_config(content: &str, server_url: &str, token: &str) -> (r: String)
    ensures
        r@ == env_text(server_url@, token@, config_value(line_seq(content@), "TUNNEL_TOKEN"@)),
{
    let given = trim(token);
    let letters = chars_of(given.as_str());
    let kept = if letters.len() == 0 {
        match read_config_value(content, "TUNNEL_TOKEN") {
            Some(v) => v,
            None => String::new(),
        }
    } else {
        given
    };
    assert(letters@.len() == 0 ==> kept@ =~= or_empty(
        config_value(line_seq(content@), "TUNNEL_TOKEN"@),
    ));
    let mut out = "TUNNEL_SERVER_URL=".to_owned();
    let server = trim(server_url);
    out.append(server.as_str());
    out.append("\nTUNNEL_TOKEN=");
    out.append(kept.as_str());
    out.append("\n");
    out
}

/// The settings that an installation of the agent writes, with a token only
/// where one is given.
pub fn install_env(server_url: &str, token: Option<&str>) -> (r: String)
    ensures
        r@ == "TUNNEL_SERVER_URL="@ + server_url@ + "\n"@ + match token {
            Some(t) => "TUNNEL_TOKEN="@ + t@ + "\n"@,
            None => Seq::empty(),
        },
        r@ == installed_env(
            server_url@,
            match token {
                Some(t) => Some(t@),
                None => None,
            },
        ),
{
    let mut out = "TUNNEL_SERVER_URL=".to_owned();
    out.append(server_url);
    out.append("\n");
    match token {
        Some(t) => {
            let ghost head = out@;
            out.append("TUNNEL_TOKEN=");
            out.append(t);
            out.append("\n");
            assert(out@ =~= head + ("TUNNEL_TOKEN="@ + t@ + "\n"@));
        },
        None => {
            assert(out@ =~= out@ + Seq::<char>::empty());
        },
    }
    out
}

/// What the console shows of the connection: the server, and whether a token
/// is stored.
pub fn load_config(content: &str) -> (r: (String, bool))
    ensures
        r.0@ == or_empty(config_value(line_seq(content@), "TUNNEL_SERVER_URL"@)),
        r.1 == (or_empty(config_value(line_seq(content@), "TUNNEL_TOKEN"@)).len() != 0),
{
    let server_url = match read_config_value(content, "TUNNEL_SERVER_URL") {
        Some(v) => v,
        None => String::new(),
    };
    assert(config_value(line_seq(content@), "TUNNEL_SERVER_URL"@) is None ==> server_url@
        =~= Seq::<char>::empty());
    let configured: bool = match read_config_value(content, "TUNNEL_TOKEN") {
        Some(v) => chars_of(v.as_str()).len() != 0,
        None => false,
    };
    (server_url, configured)
}

/// A line of the console's log.
pub fn gui_log_line(time: &str, level: &str, message: &str) -> (r: String)
    ensures
        r@ == time@ + " "@ + upper_case(level@) + " "@ + message@ + "\n"@,
        r@ == written_line(time@, level@, message@),
{
    let mut out = time.to_owned();
    out.append(" ");
    let capitals = to_upper(level);
    out.append(capitals.as_str());
    out.append(" ");
    out.append(message);
    out.append("\n");
    out
}

/// Whether the console's log is rolled before the next line.
pub fn rolls_gui_log(len: u64) -> (r: bool)
    ensures
        r == (len > GUI_LOG_MAX),
        r == log_rolls(len),
{
    len > GUI_LOG_MAX
}

/// Whether a lower-case status report names a running service.
pub open spec fn reports_running(lower: Seq<char>) -> bool {
    occurs(lower, "running"@)
}

/// Reads a service status that has been turned to lower case.
pub fn running_in(lower: &str) -> (r: bool)
    ensures
        r == reports_running(lower@),
{
    let chars = chars_of(lower);
    contains_text(chars.as_slice(), "running")
}

/// Whether the output of a service query names a running service.
pub fn service_running(stdout: &[u8]) -> (r: bool)
    ensures
        r == reports_running(lower_case(lossy_text(stdout@))),
{
    let text = from_lossy(stdout);
    let lower = to_lower(text.as_str());
    running_in(lower.as_str())
}

/// What the console can ask of the service.
#[derive(Clone, Copy, PartialEq, Eq, Debug, Structural)]
pub enum ServiceAction {
    Start,
    Stop,
}

/// The action that a request names.
pub fn service_action(action: &str) -> (r: Option<ServiceAction>)
    ensures
        r == (if action@ == "start"@ {
            Some(ServiceAction::Start)
        } else if action@ == "stop"@ {
            Some(ServiceAction::Stop)
        } else {
            None
        }),
        r == action_named(action@),
{
    if same_text(action, "start") {
        Some(ServiceAction::Start)
    } else if same_text(action, "stop") {
        Some(ServiceAction::Stop)
    } else {
        None
    }
}

proof fn lemma_line(row: Seq<char>, rest: Seq<char>)
    requires
        row.len() > 0,
        row.last() != '\r',
        !row.contains('\n'),
    ensures
        line_seq(row + seq!['\n'] + rest) == seq![row] + line_seq(rest),
{
    let s = row + seq!['\n'] + rest;
    assert forall|i: int| 0 <= i < row.len() implies s[i] != '\n' by {
        assert(s[i] == row[i]);
    }
    lemma_first_index_is(s, '\n', row.len() as int);
    assert(s.take(row.len() as int) =~= row);
    assert(s.skip(row.len() as int + 1) =~= rest);
}

proof fn lemma_value_line(lead: Seq<char>, value: Seq<char>)
    requires
        lead.len() > 0,
        lead.last() == '=',
        !lead.contains('\n'),
        !value.contains('\n'),
        value == trimmed(value),
    ensures
        (lead + value).last() != '\r',
        !(lead + value).contains('\n'),
        has_prefix(lead + value, lead),
        (lead + value).skip(lead.len() as int) == value,
{
    let row = lead + value;
    if value.len() > 0 {
        lemma_trimmed_last(value);
        assert(row.last() == value.last());
    } else {
        assert(row.last() == lead.last());
    }
    assert(!row.contains('\n')) by {
        if row.contains('\n') {
            let j = choose|j: int| 0 <= j < row.len() && row[j] == '\n';
            if j < lead.len() {
                assert(lead[j] == '\n');
            } else {
                assert(value[j - lead.len()] == '\n');
            }
        }
    }
    assert(row.take(lead.len() as int) =~= lead);
    assert(row.skip(lead.len() as int) =~= value);
}

/// What is saved is read back: the server, and the token that was given or, in
/// place of a blank one, the token that was stored. A line break in a value
/// would end it early.
pub proof fn saved_config_is_read(
    server_url: Seq<char>,
    token: Seq<char>,
    stored: Option<Seq<char>>,
)
    requires
        !trimmed(server_url).contains('\n'),
        !trimmed(token).contains('\n'),
        stored matches Some(s) ==> s == trimmed(s) && !s.contains('\n'),
    ensures
        config_value(line_seq(env_text(server_url, token, stored)), "TUNNEL_SERVER_URL"@) == Some(
            trimmed(server_url),
        ),
        config_value(line_seq(env_text(server_url, token, stored)), "TUNNEL_TOKEN"@) == Some(
            if trimmed(token).len() == 0 {
                or_empty(stored)
            } else {
                trimmed(token)
            },
        ),
{
    reveal_strlit("TUNNEL_SERVER_URL=");
    reveal_strlit("TUNNEL_SERVER_URL");
    reveal_strlit("TUNNEL_TOKEN");
    reveal_strlit("\nTUNNEL_TOKEN=");
    reveal_strlit("\n");
    let server = trimmed(server_url);
    let kept = if trimmed(token).len() == 0 {
        or_empty(stored)
    } else {
        trimmed(token)
    };
    lemma_trimmed_part(server_url);
    lemma_trimmed_part(token);
    lemma_trimmed_same(Seq::<char>::empty());
    let server_lead = "TUNNEL_SERVER_URL"@.push('=');
    let token_lead = "TUNNEL_TOKEN"@.push('=');
    assert(server_lead =~= "TUNNEL_SERVER_URL="@);
    assert(server_lead.last() == '=' && token_lead.last() == '=');
    lemma_value_line(server_lead, server);
    lemma_value_line(token_lead, kept);
    let first = server_lead + server;
    let second = token_lead + kept;
    let tail = second + seq!['\n'] + Seq::<char>::empty();
    let text = env_text(server_url, token, stored);
    assert(text =~= first + seq!['\n'] + tail);
    lemma_line(first, tail);
    lemma_line(second, Seq::empty());
    let rows = line_seq(text);
    assert(rows =~= seq![first, second]);
    assert(rows.drop_first() =~= seq![second]);
    assert(!has_prefix(first, token_lead)) by {
        assert(first[7] == 'S' && token_lead[7] == 'T');
        assert(first.take(token_lead.len() as int)[7] == 'S');
    }
    reveal_with_fuel(config_value, 3);
}

/// The entries of the console's log.
pub open spec fn gui_entries(content: Seq<char>) -> Seq<LogLineView> {
    line_entries(line_seq(content), 2, "GUI"@)
}

/// The entries of the agent's log.
pub open spec fn agent_entries(content: Seq<char>) -> Seq<LogLineView> {
    line_entries(line_seq(content), 3, "agent"@)
}

/// A line of the console's log.
pub open spec fn written_line(time: Seq<char>, level: Seq<char>, message: Seq<char>) -> Seq<char> {
    time + " "@ + upper_case(level) + " "@ + message + "\n"@
}

/// Whether the console's log is rolled.
pub open spec fn log_rolls(len: u64) -> bool {
    len > GUI_LOG_MAX
}

/// The environment that the service is installed with.
pub open spec fn installed_env(server_url: Seq<char>, token: Option<Seq<char>>) -> Seq<char> {
    "TUNNEL_SERVER_URL="@ + server_url + "\n"@ + match token {
        Some(t) => "TUNNEL_TOKEN="@ + t + "\n"@,
        None => Seq::empty(),
    }
}

/// Whether a text is one word.
pub open spec fn one_word(s: Seq<char>) -> bool {
    s.len() > 0 && forall|i: int| 0 <= i < s.len() ==> !white_space(#[trigger] s[i])
}

proof fn lemma_word_has_no_feed(s: Seq<char>)
    requires
        one_word(s),
    ensures
        !s.contains('\n'),
        s.last() != '\r',
        s.last() != '\n',
{
    if s.contains('\n') {
        let j = choose|j: int| 0 <= j < s.len() && s[j] == '\n';
        assert(white_space(s[j]));
    }
    assert(!white_space(s[s.len() - 1]));
}

/// What the console writes to its log is read back as one entry: its time, its
/// level in capitals, and its message.
pub proof fn written_line_is_read(time: Seq<char>, level: Seq<char>, message: Seq<char>)
    requires
        one_word(time),
        one_word(upper_case(level)),
        one_word(message),
    ensures
        gui_entries(written_line(time, level, message)) == seq![
            LogLineView {
                timestamp: time,
                level: upper_case(upper_case(level)),
                source: "GUI"@,
                message,
                epoch_ms: match rfc3339_millis(time) {
                    Some(ms) => ms,
                    None => 0,
                },
            },
        ],
{
    reveal_strlit(" ");
    reveal_strlit("\n");
    let l = upper_case(level);
    let row = time + seq![' '] + (l + seq![' '] + message);
    assert(written_line(time, level, message) =~= row + seq!['\n'] + Seq::<char>::empty());
    lemma_word_has_no_feed(time);
    lemma_word_has_no_feed(l);
    lemma_word_has_no_feed(message);
    if row.contains('\n') {
        let j = choose|j: int| 0 <= j < row.len() && row[j] == '\n';
        if j < time.len() {
            assert(time[j] == '\n');
        } else if j > time.len() && j < time.len() + 1 + l.len() {
            assert(l[j - time.len() - 1] == '\n');
        } else if j > time.len() + 1 + l.len() {
            assert(message[j - time.len() - l.len() - 2] == '\n');
        }
    }
    assert(row.last() == message.last());
    lines_end_at_feeds(row, Seq::empty());
    let rows = line_seq(written_line(time, level, message));
    assert(rows =~= seq![row]);
    words_stand_between_spaces(time, ' ', l + seq![' '] + message);
    words_stand_between_spaces(l, ' ', message);
    words_stand_between_spaces(message, ' ', Seq::empty());
    let parts = word_seq(row);
    assert(parts =~= seq![time, l, message]);
    assert(parts.skip(2) =~= seq![message]);
    joining_in_parts(seq![message], seq![message], " "@, message);
    assert(rows.drop_last() =~= Seq::<Seq<char>>::empty());
    reveal_with_fuel(line_entries, 2);
    assert(line_entries(rows, 2, "GUI"@) =~= line_entry(row, 2, "GUI"@));
}

/// A line of the agent's log has its time, its level and its module before the
/// message, one of the console's its time and its level. A line without a
/// message gives no entry, nor does one that is too short.
pub proof fn line_gives_its_entry(
    line: Seq<char>,
    head: Seq<Seq<char>>,
    rest: Seq<Seq<char>>,
    source: Seq<char>,
)
    requires
        word_seq(line) == head + rest,
        head.len() >= 2,
    ensures
        line_entry(line, head.len(), source) == log_entry(
            head[0],
            head[1],
            source,
            joined(rest, " "@),
            rfc3339_millis(head[0]),
        ),
        rest.len() == 0 ==> line_entry(line, head.len(), source).len() == 0,
        line_entry(line, (head.len() + rest.len() + 1) as nat, source).len() == 0,
{
    assert((head + rest).skip(head.len() as int) =~= rest);
}

/// The agent's log has three words before a message, the console's two, and
/// each entry says which of them it is from. Lines follow each other.
pub proof fn logs_are_read_line_by_line(row: Seq<char>, content: Seq<char>)
    requires
        row.len() > 0,
        row.last() != '\r',
        !row.contains('\n'),
    ensures
        agent_entries(row + seq!['\n'] + content) == line_entry(row, 3, "agent"@)
            + agent_entries(content),
        gui_entries(row + seq!['\n'] + content) == line_entry(row, 2, "GUI"@) + gui_entries(
            content,
        ),
        agent_entries(Seq::empty()).len() == 0,
        gui_entries(Seq::empty()).len() == 0,
{
    lemma_line(row, content);
    lemma_entries_first(seq![row] + line_seq(content), 3, "agent"@);
    lemma_entries_first(seq![row] + line_seq(content), 2, "GUI"@);
    assert((seq![row] + line_seq(content)).drop_first() =~= line_seq(content));
}

proof fn lemma_entries_first(rows: Seq<Seq<char>>, skip: nat, source: Seq<char>)
    requires
        rows.len() > 0,
    ensures
        line_entries(rows, skip, source) == line_entry(rows.first(), skip, source) + line_entries(
            rows.drop_first(),
            skip,
            source,
        ),
    decreases rows.len(),
{
    let e = line_entry(rows.first(), skip, source);
    if rows.len() == 1 {
        assert(rows.drop_last() =~= Seq::<Seq<char>>::empty());
        assert(rows.drop_first() =~= Seq::<Seq<char>>::empty());
        assert(line_entries(rows.drop_last(), skip, source) =~= Seq::<LogLineView>::empty());
        assert(rows.first() == rows.last());
        assert(line_entries(rows, skip, source) =~= e + line_entries(
            rows.drop_first(),
            skip,
            source,
        ));
    } else {
        lemma_entries_first(rows.drop_last(), skip, source);
        assert(rows.drop_last().drop_first() =~= rows.drop_first().drop_last());
        assert(rows.drop_first().last() == rows.last());
        assert(rows.drop_last().first() == rows.first());
        assert(line_entries(rows, skip, source) =~= e + line_entries(
            rows.drop_first(),
            skip,
            source,
        ));
    }
}

/// An entry holds what it was made of, with its level in capitals and zero for
/// a time that cannot be read; without a message there is none.
pub proof fn entry_holds_its_parts(
    timestamp: Seq<char>,
    level: Seq<char>,
    source: Seq<char>,
    message: Seq<char>,
    epoch: Option<i64>,
)
    ensures
        message.len() == 0 <==> log_entry(timestamp, level, source, message, epoch).len() == 0,
        message.len() > 0 ==> ({
            let e = log_entry(timestamp, level, source, message, epoch);
            &&& e.len() == 1
            &&& e[0].timestamp == timestamp
            &&& e[0].level == upper_case(level)
            &&& e[0].source == source
            &&& e[0].message == message
            &&& epoch matches Some(ms) ==> e[0].epoch_ms == ms
            &&& epoch is None ==> e[0].epoch_ms == 0
        }),
{
}

/// An entry newer than all others comes first, one that is no newer than any
/// comes last: entries of one time keep their order.
pub proof fn new_entry_finds_its_place(list: Seq<LogLineView>, x: LogLineView)
    ensures
        (forall|i: int| 0 <= i < list.len() ==> (#[trigger] list[i]).epoch_ms < x.epoch_ms)
            ==> newest_entries(list.push(x)) == seq![x] + newest_entries(list),
        (forall|i: int| 0 <= i < list.len() ==> (#[trigger] list[i]).epoch_ms >= x.epoch_ms)
            ==> newest_entries(list.push(x)) == newest_entries(list).push(x),
        newest_entries(Seq::empty()).len() == 0,
{
    assert(list.push(x).drop_last() =~= list);
    let sorted = newest_entries(list);
    newest_entries_sort(list);
    assert forall|i: int| 0 <= i < sorted.len() implies exists|j: int|
        0 <= j < list.len() && list[j] == #[trigger] sorted[i] by {
        sorted.to_multiset_ensures();
        list.to_multiset_ensures();
        assert(sorted.contains(sorted[i]));
        assert(sorted.to_multiset().count(sorted[i]) > 0);
        assert(list.contains(sorted[i]));
    }
    if forall|i: int| 0 <= i < list.len() ==> (#[trigger] list[i]).epoch_ms < x.epoch_ms {
        if sorted.len() > 0 {
            assert(sorted[0].epoch_ms < x.epoch_ms);
        }
        lemma_insert_entry(sorted, x, 0);
        assert(sorted.insert(0, x) =~= seq![x] + sorted);
    }
    if forall|i: int| 0 <= i < list.len() ==> (#[trigger] list[i]).epoch_ms >= x.epoch_ms {
        assert forall|i: int| 0 <= i < sorted.len() implies (#[trigger] sorted[i]).epoch_ms
            >= x.epoch_ms by {
            let j = choose|j: int| 0 <= j < list.len() && list[j] == sorted[i];
            assert(list[j].epoch_ms >= x.epoch_ms);
        }
        lemma_insert_entry(sorted, x, sorted.len() as int);
        assert(sorted.insert(sorted.len() as int, x) =~= sorted.push(x));
    }
}

/// As many entries are shown as asked for, from one to five hundred, two hundred
/// where no number is given, and the first ones of those there are.
pub proof fn entries_as_asked(n: usize, a: Seq<LogLineView>, b: Seq<LogLineView>)
    ensures
        1 <= n <= 500 ==> entry_limit(Some(n)) == n,
        n > 500 ==> entry_limit(Some(n)) == 500,
        entry_limit(Some(0)) == 1,
        entry_limit(None) == 200,
        at_most(a + b, a.len()) == a,
        at_most(a, (a.len() + b.len()) as nat) == a,
{
    assert((a + b).take(a.len() as int) =~= a);
    if b.len() == 0 {
        assert(a + b =~= a);
    }
}

/// A setting is what follows its key and an equals sign in the first line that
/// begins with them.
pub proof fn first_line_of_key_counts(
    rows: Seq<Seq<char>>,
    key: Seq<char>,
    value: Seq<char>,
    other: Seq<char>,
)
    requires
        !has_prefix(other, key.push('=')),
    ensures
        config_value(seq![key + seq!['='] + value] + rows, key) == Some(trimmed(value)),
        config_value(seq![other] + rows, key) == config_value(rows, key),
        config_value(Seq::empty(), key) is None,
{
    let row = key + seq!['='] + value;
    assert(row.take(key.len() as int + 1) =~= key.push('='));
    assert(row.skip(key.len() as int + 1) =~= value);
    assert((seq![row] + rows).first() == row);
    assert((seq![other] + rows).drop_first() =~= rows);
}

/// What the service is installed with is what it reads: its server and, where
/// one was given, its token.
pub proof fn installed_env_is_read(server_url: Seq<char>, token: Seq<char>)
    requires
        !server_url.contains('\n'),
        server_url == trimmed(server_url),
        !token.contains('\n'),
        token == trimmed(token),
    ensures
        config_value(line_seq(installed_env(server_url, Some(token))), "TUNNEL_SERVER_URL"@)
            == Some(server_url),
        config_value(line_seq(installed_env(server_url, Some(token))), "TUNNEL_TOKEN"@) == Some(
            token,
        ),
        config_value(line_seq(installed_env(server_url, None)), "TUNNEL_SERVER_URL"@) == Some(
            server_url,
        ),
        config_value(line_seq(installed_env(server_url, None)), "TUNNEL_TOKEN"@) is None,
{
    reveal_strlit("TUNNEL_SERVER_URL=");
    reveal_strlit("TUNNEL_SERVER_URL");
    reveal_strlit("TUNNEL_TOKEN");
    reveal_strlit("TUNNEL_TOKEN=");
    reveal_strlit("\n");
    let server_lead = "TUNNEL_SERVER_URL"@.push('=');
    let token_lead = "TUNNEL_TOKEN"@.push('=');
    assert(server_lead =~= "TUNNEL_SERVER_URL="@);
    assert(token_lead =~= "TUNNEL_TOKEN="@);
    assert(server_lead.last() == '=' && token_lead.last() == '=');
    lemma_value_line(server_lead, server_url);
    lemma_value_line(token_lead, token);
    let first = server_lead + server_url;
    let second = token_lead + token;
    let tail = second + seq!['\n'] + Seq::<char>::empty();
    assert(installed_env(server_url, Some(token)) =~= first + seq!['\n'] + tail);
    assert(installed_env(server_url, None) =~= first + seq!['\n'] + Seq::<char>::empty());
    lemma_line(first, tail);
    lemma_line(first, Seq::empty());
    lemma_line(second, Seq::empty());
    assert(line_seq(installed_env(server_url, Some(token))) =~= seq![first, second]);
    assert(line_seq(installed_env(server_url, None)) =~= seq![first]);
    assert(seq![first, second].drop_first() =~= seq![second]);
    assert(seq![first].drop_first() =~= Seq::<Seq<char>>::empty());
    assert(!has_prefix(first, token_lead)) by {
        assert(first[7] == 'S' && token_lead[7] == 'T');
        assert(first.take(token_lead.len() as int)[7] == 'S');
    }
    reveal_with_fuel(config_value, 3);
}

/// A service runs where its report says so, wherever in it; the console's log is
/// rolled over a mebibyte.
pub proof fn running_is_reported(before: Seq<char>, after: Seq<char>, len: u64)
    ensures
        reports_running(before + "running"@ + after),
        before.len() < 7 ==> !reports_running(before),
        log_rolls(len) <==> len > 1024 * 1024,
{
    reveal_strlit("running");
    let s = before + "running"@ + after;
    let n = before.len() as int;
    assert(s.subrange(n, n + "running"@.len()) =~= "running"@);
}

/// The action of a name.
pub open spec fn action_named(s: Seq<char>) -> Option<ServiceAction> {
    if s == "start"@ {
        Some(ServiceAction::Start)
    } else if s == "stop"@ {
        Some(ServiceAction::Stop)
    } else {
        None
    }
}

/// Each action has its own name.
pub proof fn actions_by_name(s: Seq<char>)
    ensures
        action_named(s) == Some(ServiceAction::Start) <==> s == "start"@,
        action_named(s) == Some(ServiceAction::Stop) <==> s == "stop"@,
{
    reveal_strlit("start");
    reveal_strlit("stop");
    assert("start"@.len() != "stop"@.len());
}

} // verus!
