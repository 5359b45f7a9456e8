//! The agent's command line and client console: what was asked for, which
//! process runs, and what goes between console and agent.

use vstd::prelude::*;
use vstd::utf8::{decode_utf8, valid_utf8};

use crate::number::{
    all_digits, dec, decimal, digits_value, is_digit, lemma_dec_digits, number_round_trip,
    parse_u32, parse_usize, unsigned_value,
};
use crate::protocol::MAX_FRAME_BYTES;
use crate::text::{
    chars_of, contains_text, join_from, joined, occurs, same_text, trim, trimmed,
    trimming_cuts_ends, views,
};

verus! {

/// The process id in a pid file: digits with white space around them.
pub open spec fn pid_of(content: Seq<char>) -> Option<nat> {
    let t = trimmed(content);
    if t.len() > 0 && all_digits(t) && digits_value(t) <= u32::MAX {
        Some(digits_value(t))
    } else {
        None
    }
}

/// Reads a pid file.
pub fn parse_pid_file(content: &str) -> (r: Option<u32>)
    ensures
        match r {
            Some(pid) => pid_of(content@) == Some(pid as nat),
            None => pid_of(content@) is None,
        },
{
    let value = trim(content);
    let chars = chars_of(value.as_str());
    if chars.len() == 0 {
        return None;
    }
    let mut i: usize = 0;
    while i < chars.len()
        invariant
            i <= chars@.len(),
            chars@ == value@,
            value@ == trimmed(content@),
            forall|j: int| 0 <= j < i ==> '0' <= #[trigger] value@[j] <= '9',
        decreases chars@.len() - i,
    {
        let c: char = chars[i];
        if c < '0' || c > '9' {
            assert(!crate::number::is_digit(value@[i as int]));
            return None;
        }
        i += 1;
    }
    assert(all_digits(value@));
    assert(value@[0] != '+');
    parse_u32(value.as_str())
}

/// What `String::from_utf8_lossy` makes of bytes.
pub uninterp spec fn lossy_text(bytes: Seq<u8>) -> Seq<char>;

/// Bytes as text, by `String::from_utf8_lossy`: UTF-8 is decoded; what becomes
/// of other bytes is left open.
#[verifier::external_body]
pub(crate) fn from_lossy(bytes: &[u8]) -> (r: String)
    ensures
        r@ == lossy_text(bytes@),
        valid_utf8(bytes@) ==> r@ == decode_utf8(bytes@),
{
    String::from_utf8_lossy(bytes).into_owned()
}

/// A text without its NUL characters.
pub open spec fn without_nuls(s: Seq<char>) -> Seq<char>
    decreases s.len(),
{
    if s.len() == 0 {
        Seq::empty()
    } else if s.last() == '\0' {
        without_nuls(s.drop_last())
    } else {
        without_nuls(s.drop_last()).push(s.last())
    }
}

/// Whether a text holds another once its NUL characters are gone. Windows
/// PowerShell writes UTF-16 to a redirected output, which puts a NUL after
/// every ASCII character.
pub fn text_matches(text: &str, needle: &str) -> (r: bool)
    ensures
        r == occurs(without_nuls(text@), needle@),
{
    let chars = chars_of(text);
    let mut kept: Vec<char> = Vec::new();
    let mut i: usize = 0;
    while i < chars.len()
        invariant
            i <= chars@.len(),
            chars@ == text@,
            kept@ == without_nuls(text@.take(i as int)),
        decreases chars@.len() - i,
    {
        assert(text@.take(i + 1).drop_last() =~= text@.take(i as int));
        if chars[i] != '\0' {
            kept.push(chars[i]);
        }
        i += 1;
    }
    assert(text@.take(text@.len() as int) =~= text@);
    contains_text(kept.as_slice(), needle)
}

/// Whether the output of a PowerShell command holds a text.
pub fn ps_stdout_contains_bytes(stdout: &[u8], needle: &str) -> (r: bool)
    ensures
        r == occurs(without_nuls(lossy_text(stdout@)), needle@),
        valid_utf8(stdout@) ==> r == occurs(without_nuls(decode_utf8(stdout@)), needle@),
{
    let text = from_lossy(stdout);
    text_matches(text.as_str(), needle)
}

/// Backslashes in a row.
pub open spec fn slashes(n: nat) -> Seq<char> {
    Seq::new(n, |i: int| '\\')
}

/// The first argument that Windows reads from a command line. `quoted` says
/// whether it is inside double quotes, `n` how many backslashes stand just
/// before. Backslashes are plain unless a double quote follows them: then two
/// stand for one, and one left over makes the quote plain.
pub open spec fn argument_read(s: Seq<char>, quoted: bool, n: nat) -> Seq<char>
    decreases s.len(),
{
    if s.len() == 0 {
        slashes(n)
    } else if s.first() == '\\' {
        argument_read(s.drop_first(), quoted, n + 1)
    } else if s.first() == '"' {
        if n % 2 == 1 {
            slashes(n / 2) + seq!['"'] + argument_read(s.drop_first(), quoted, 0)
        } else {
            slashes(n / 2) + argument_read(s.drop_first(), !quoted, 0)
        }
    } else if !quoted && (s.first() == ' ' || s.first() == '\t') {
        slashes(n)
    } else {
        slashes(n) + seq![s.first()] + argument_read(s.drop_first(), quoted, 0)
    }
}

/// What stands between the double quotes for an argument, `n` backslashes of
/// which were read and not yet written.
pub open spec fn escaped(s: Seq<char>, n: nat) -> Seq<char>
    decreases s.len(),
{
    if s.len() == 0 {
        slashes(2 * n)
    } else if s.first() == '\\' {
        escaped(s.drop_first(), n + 1)
    } else if s.first() == '"' {
        slashes(2 * n + 1) + seq!['"'] + escaped(s.drop_first(), 0)
    } else {
        slashes(n) + seq![s.first()] + escaped(s.drop_first(), 0)
    }
}

/// Whether an argument needs no double quotes: it is not empty and holds no
/// ASCII white space and no double quote.
pub open spec fn plain_argument(s: Seq<char>) -> bool {
    s.len() > 0 && forall|i: int| 0 <= i < s.len() ==> !breaks_argument(#[trigger] s[i])
}

/// Whether a character makes double quotes necessary.
pub open spec fn breaks_argument(c: char) -> bool {
    c == ' ' || c == '\t' || c == '\n' || c == '\r' || c == '\x0c' || c == '"'
}

/// An argument as it stands on a Windows command line.
pub open spec fn quoted_argument(s: Seq<char>) -> Seq<char> {
    if plain_argument(s) {
        s
    } else {
        seq!['"'] + escaped(s, 0) + seq!['"']
    }
}

proof fn lemma_read_slashes(n: nat, t: Seq<char>, quoted: bool, m: nat)
    ensures
        argument_read(slashes(n) + t, quoted, m) == argument_read(t, quoted, m + n),
    decreases n,
{
    if n == 0 {
        assert(slashes(0) + t =~= t);
    } else {
        let s = slashes(n) + t;
        assert(s.drop_first() =~= slashes((n - 1) as nat) + t);
        lemma_read_slashes((n - 1) as nat, t, quoted, m + 1);
    }
}

proof fn lemma_read_escaped(s: Seq<char>, n: nat)
    ensures
        argument_read(escaped(s, n) + seq!['"'], true, 0) == slashes(n) + s,
    decreases s.len(),
{
    let close = seq!['"'];
    if s.len() == 0 {
        lemma_read_slashes(2 * n, close, true, 0);
        assert(close.drop_first() =~= Seq::<char>::empty());
        assert(argument_read(close.drop_first(), false, 0) =~= Seq::<char>::empty());
        assert(argument_read(close, true, 2 * n) =~= slashes(n));
        assert(slashes(n) + s =~= slashes(n));
    } else if s.first() == '\\' {
        lemma_read_escaped(s.drop_first(), n + 1);
        assert(slashes(n + 1) + s.drop_first() =~= slashes(n) + s);
    } else if s.first() == '"' {
        let rest = escaped(s.drop_first(), 0) + close;
        let t = seq!['"'] + rest;
        assert(escaped(s, n) + close =~= slashes(2 * n + 1) + t);
        lemma_read_slashes(2 * n + 1, t, true, 0);
        assert(t.drop_first() =~= rest);
        lemma_read_escaped(s.drop_first(), 0);
        assert(slashes(0) + s.drop_first() =~= s.drop_first());
        assert((2 * n + 1) % 2 == 1 && (2 * n + 1) / 2 == n);
        assert(slashes(n) + seq!['"'] + s.drop_first() =~= slashes(n) + s);
    } else {
        let rest = escaped(s.drop_first(), 0) + close;
        let t = seq![s.first()] + rest;
        assert(escaped(s, n) + close =~= slashes(n) + t);
        lemma_read_slashes(n, t, true, 0);
        assert(t.drop_first() =~= rest);
        lemma_read_escaped(s.drop_first(), 0);
        assert(slashes(0) + s.drop_first() =~= s.drop_first());
        assert(slashes(n) + seq![s.first()] + s.drop_first() =~= slashes(n) + s);
    }
}

proof fn lemma_read_plain(s: Seq<char>, n: nat)
    requires
        forall|i: int| 0 <= i < s.len() ==> !breaks_argument(#[trigger] s[i]),
    ensures
        argument_read(s, false, n) == slashes(n) + s,
    decreases s.len(),
{
    if s.len() == 0 {
        assert(slashes(n) + s =~= slashes(n));
    } else {
        assert(!breaks_argument(s[0]));
        let rest = s.drop_first();
        assert forall|i: int| 0 <= i < rest.len() implies !breaks_argument(#[trigger] rest[i]) by {
            assert(!breaks_argument(s[i + 1]));
        }
        if s.first() == '\\' {
            lemma_read_plain(rest, n + 1);
            assert(slashes(n + 1) + rest =~= slashes(n) + s);
        } else {
            lemma_read_plain(rest, 0);
            assert(slashes(0) + rest =~= rest);
            assert(slashes(n) + seq![s.first()] + rest =~= slashes(n) + s);
        }
    }
}

/// Windows reads a quoted argument back as the argument.
pub proof fn quoting_round_trip(arg: Seq<char>)
    ensures
        argument_read(quoted_argument(arg), false, 0) == arg,
{
    if plain_argument(arg) {
        lemma_read_plain(arg, 0);
        assert(slashes(0) + arg =~= arg);
    } else {
        let inner = escaped(arg, 0) + seq!['"'];
        let all = quoted_argument(arg);
        assert(all =~= seq!['"'] + inner);
        assert(all.drop_first() =~= inner);
        lemma_read_escaped(arg, 0);
        assert(slashes(0) + arg =~= arg);
        assert(slashes(0) + argument_read(inner, true, 0) =~= argument_read(inner, true, 0));
    }
}

fn push_slashes(out: &mut String, n: usize)
    ensures
        final(out)@ == old(out)@ + slashes(n as nat),
{
    let mut i: usize = 0;
    assert(old(out)@ + slashes(0) =~= old(out)@);
    while i < n
        invariant
            i <= n,
            out@ == old(out)@ + slashes(i as nat),
        decreases n - i,
    {
        out.push('\\');
        i += 1;
        assert(out@ =~= old(out)@ + slashes(i as nat));
    }
}

/// Quotes one argument the way Windows reads it: within double quotes where it
/// is empty or holds white space or a double quote, with a backslash before each
/// embedded double quote, and with those backslashes doubled that would
/// otherwise escape a double quote.
pub fn quote_win_arg(arg: &str) -> (r: String)
    ensures
        r@ == quoted_argument(arg@),
{
    let chars = chars_of(arg);
    let mut plain: bool = chars.len() > 0;
    let mut i: usize = 0;
    while i < chars.len()
        invariant
            i <= chars@.len(),
            chars@ == arg@,
            plain == (arg@.len() > 0 && forall|j: int|
                0 <= j < i ==> !breaks_argument(#[trigger] arg@[j])),
        decreases chars@.len() - i,
    {
        let c: char = chars[i];
        if c == ' ' || c == '\t' || c == '\n' || c == '\r' || c == '\x0c' || c == '"' {
            assert(breaks_argument(arg@[i as int]));
            plain = false;
        }
        i += 1;
    }
    if plain {
        return arg.to_owned();
    }
    let mut out = String::new();
    out.push('"');
    let mut held: usize = 0;
    let mut k: usize = 0;
    proof {
        assert(arg@.skip(0) =~= arg@);
        assert(out@ + escaped(arg@.skip(0), 0) =~= seq!['"'] + escaped(arg@, 0));
    }
    while k < chars.len()
        invariant
            k <= chars@.len(),
            held <= k,
            chars@ == arg@,
            out@ + escaped(arg@.skip(k as int), held as nat) == seq!['"'] + escaped(arg@, 0),
        decreases chars@.len() - k,
    {
        let c: char = chars[k];
        let ghost rest = arg@.skip(k as int);
        let ghost before = out@;
        proof {
            assert(rest.first() == c);
            assert(rest.drop_first() =~= arg@.skip(k + 1));
        }
        if c == '\\' {
            held += 1;
        } else if c == '"' {
            push_slashes(&mut out, held);
            push_slashes(&mut out, held);
            out.push('\\');
            out.push('"');
            proof {
                let h = held as nat;
                assert(out@ =~= before + (slashes(2 * h + 1) + seq!['"']));
                assert(out@ + escaped(rest.drop_first(), 0) =~= before + escaped(rest, h));
            }
            held = 0;
        } else {
            push_slashes(&mut out, held);
            out.push(c);
            proof {
                let h = held as nat;
                assert(out@ =~= before + (slashes(h) + seq![c]));
                assert(out@ + escaped(rest.drop_first(), 0) =~= before + escaped(rest, h));
            }
            held = 0;
        }
        k += 1;
    }
    let ghost before = out@;
    proof {
        assert(arg@.skip(arg@.len() as int) =~= Seq::<char>::empty());
    }
    push_slashes(&mut out, held);
    push_slashes(&mut out, held);
    out.push('"');
    proof {
        let h = held as nat;
        assert(out@ =~= before + slashes(2 * h) + seq!['"']);
        assert(!plain_argument(arg@));
        assert(out@ =~= quoted_argument(arg@));
    }
    out
}

/// Arguments as they stand on a Windows command line.
pub open spec fn quoted_all(args: Seq<Seq<char>>) -> Seq<Seq<char>> {
    Seq::new(args.len(), |i: int| quoted_argument(args[i]))
}

/// The command line that passes arguments on.
pub fn quoted_parameters(args: &[String]) -> (r: String)
    ensures
        r@ == joined(quoted_all(views(args@)), " "@),
{
    let mut parts: Vec<String> = Vec::new();
    let mut i: usize = 0;
    while i < args.len()
        invariant
            i <= args@.len(),
            parts@.len() == i,
            forall|j: int|
                0 <= j < i ==> (#[trigger] parts@[j])@ == quoted_argument(views(args@)[j]),
        decreases args@.len() - i,
    {
        parts.push(quote_win_arg(args[i].as_str()));
        i += 1;
    }
    assert(views(parts@) =~= quoted_all(views(args@)));
    assert(views(parts@).skip(0) =~= views(parts@));
    join_from(&parts, 0, " ")
}

/// A command of the client console.
#[derive(Debug, Clone, Copy, PartialEq, Eq, Structural)]
pub enum ConsoleCommand {
    Start,
    Stop,
    Restart,
    Reset,
    Status,
    Settings,
    Traffic,
    Logs,
    Exit,
    Help,
    /// Nothing was typed.
    Blank,
    Unknown,
}

/// The command that a line stands for.
pub open spec fn command_of(line: Seq<char>) -> ConsoleCommand {
    if line == "start"@ {
        ConsoleCommand::Start
    } else if line == "stop"@ {
        ConsoleCommand::Stop
    } else if line == "restart"@ {
        ConsoleCommand::Restart
    } else if line == "reset"@ {
        ConsoleCommand::Reset
    } else if line == "status"@ {
        ConsoleCommand::Status
    } else if line == "settings"@ {
        ConsoleCommand::Settings
    } else if line == "traffic"@ {
        ConsoleCommand::Traffic
    } else if line == "logs"@ {
        ConsoleCommand::Logs
    } else if line == "exit"@ {
        ConsoleCommand::Exit
    } else if line == "help"@ {
        ConsoleCommand::Help
    } else if line == ""@ {
        ConsoleCommand::Blank
    } else {
        ConsoleCommand::Unknown
    }
}

/// Reads a console command.
pub fn parse_command(line: &str) -> (r: ConsoleCommand)
    ensures
        r == command_of(line@),
{
    if same_text(line, "start") {
        ConsoleCommand::Start
    } else if same_text(line, "stop") {
        ConsoleCommand::Stop
    } else if same_text(line, "restart") {
        ConsoleCommand::Restart
    } else if same_text(line, "reset") {
        ConsoleCommand::Reset
    } else if same_text(line, "status") {
        ConsoleCommand::Status
    } else if same_text(line, "settings") {
        ConsoleCommand::Settings
    } else if same_text(line, "traffic") {
        ConsoleCommand::Traffic
    } else if same_text(line, "logs") {
        ConsoleCommand::Logs
    } else if same_text(line, "exit") {
        ConsoleCommand::Exit
    } else if same_text(line, "help") {
        ConsoleCommand::Help
    } else if same_text(line, "") {
        ConsoleCommand::Blank
    } else {
        ConsoleCommand::Unknown
    }
}

/// What the program was started for.
#[derive(Debug, PartialEq, Eq)]
pub enum CliMode {
    Version,
    Service,
    Uninstall,
    Install { server: Option<String> },
    Reset,
    Logs { follow: bool, lines: usize },
    Settings,
    Traffic,
    Agent,
    Console,
}

/// Whether a text is among arguments.
pub open spec fn has_arg(args: Seq<Seq<char>>, a: Seq<char>) -> bool {
    args.contains(a)
}

/// The argument after the first occurrence of a text.
pub open spec fn arg_after(args: Seq<Seq<char>>, a: Seq<char>) -> Option<Seq<char>>
    decreases args.len(),
{
    if args.len() == 0 {
        None
    } else if args.first() == a {
        if args.len() > 1 {
            Some(args[1])
        } else {
            None
        }
    } else {
        arg_after(args.drop_first(), a)
    }
}

/// The word after the program's name.
pub open spec fn sub_command(args: Seq<Seq<char>>) -> Option<Seq<char>> {
    if args.len() > 1 {
        Some(args[1])
    } else {
        None
    }
}

/// The number of log lines asked for: 100 unless given, and from 1 to 2000.
pub open spec fn lines_of(args: Seq<Seq<char>>) -> nat {
    let asked = match arg_after(args, "-n"@) {
        Some(v) => match unsigned_value(v, usize::MAX as nat) {
            Some(n) => n,
            None => 100,
        },
        None => 100,
    };
    if asked < 1 {
        1
    } else if asked > 2000 {
        2000
    } else {
        asked
    }
}

/// Whether a mode is what arguments ask for.
pub open spec fn mode_for(args: Seq<Seq<char>>, mode: CliMode) -> bool {
    if has_arg(args, "--version"@) || has_arg(args, "-V"@) {
        mode is Version
    } else if has_arg(args, "--service"@) {
        mode is Service
    } else if has_arg(args, "--uninstall"@) {
        mode is Uninstall
    } else if has_arg(args, "--install"@) {
        mode matches CliMode::Install { server } && match server {
            Some(s) => arg_after(args, "--server"@) == Some(s@),
            None => arg_after(args, "--server"@) is None,
        }
    } else if sub_command(args) == Some("reset"@) {
        mode is Reset
    } else if sub_command(args) == Some("logs"@) {
        mode matches CliMode::Logs { follow, lines } && follow == (has_arg(args, "-f"@) || has_arg(
            args,
            "--follow"@,
        )) && lines == lines_of(args)
    } else if sub_command(args) == Some("settings"@) {
        mode is Settings
    } else if sub_command(args) == Some("traffic"@) {
        mode is Traffic
    } else if has_arg(args, "--agent"@) {
        mode is Agent
    } else {
        mode is Console
    }
}

fn find_arg(args: &Vec<String>, a: &str) -> (r: Option<usize>)
    ensures
        match r {
            Some(i) => i < args@.len() && args@[i as int]@ == a@ && forall|j: int|
                0 <= j < i ==> (#[trigger] args@[j])@ != a@,
            None => forall|j: int| 0 <= j < args@.len() ==> (#[trigger] args@[j])@ != a@,
        },
        r is Some == has_arg(views(args@), a@),
{
    let mut i: usize = 0;
    while i < args.len()
        invariant
            i <= args@.len(),
            forall|j: int| 0 <= j < i ==> (#[trigger] args@[j])@ != a@,
        decreases args@.len() - i,
    {
        if same_text(args[i].as_str(), a) {
            assert(views(args@)[i as int] == a@);
            return Some(i);
        }
        i += 1;
    }
    proof {
        if has_arg(views(args@), a@) {
            let v = views(args@);
            let j = choose|j: int| 0 <= j < v.len() && v[j] == a@;
            assert(args@[j]@ == a@);
        }
    }
    None
}

proof fn lemma_arg_after(args: Seq<Seq<char>>, a: Seq<char>, i: int)
    requires
        0 <= i <= args.len(),
        i < args.len() ==> args[i] == a,
        forall|j: int| 0 <= j < i ==> args[j] != a,
    ensures
        arg_after(args, a) == if i + 1 < args.len() {
            Some(args[i + 1])
        } else {
            None
        },
    decreases i,
{
    if i > 0 {
        assert(args[0] != a);
        let rest = args.drop_first();
        assert forall|j: int| 0 <= j < i - 1 implies rest[j] != a by {
            assert(args[j + 1] != a);
        }
        lemma_arg_after(rest, a, i - 1);
    }
}

fn value_after(args: &Vec<String>, a: &str) -> (r: Option<String>)
    ensures
        match r {
            Some(s) => arg_after(views(args@), a@) == Some(s@),
            None => arg_after(views(args@), a@) is None,
        },
{
    match find_arg(args, a) {
        Some(i) => {
            proof {
                let v = views(args@);
                assert forall|j: int| 0 <= j < i implies v[j] != a@ by {
                    assert(args@[j]@ != a@);
                }
                lemma_arg_after(v, a@, i as int);
            }
            if i < args.len() - 1 {
                Some(args[i + 1].clone())
            } else {
                None
            }
        },
        None => {
            proof {
                let v = views(args@);
                assert forall|j: int| 0 <= j < v.len() implies v[j] != a@ by {
                    assert(args@[j]@ != a@);
                }
                lemma_arg_after(v, a@, v.len() as int);
            }
            None
        },
    }
}

fn is_sub_command(args: &Vec<String>, a: &str) -> (r: bool)
    ensures
        r == (sub_command(views(args@)) == Some(a@)),
{
    args.len() > 1 && same_text(args[1].as_str(), a)
}

/// What the program was started for.
pub fn cli_mode(args: &Vec<String>) -> (r: CliMode)
    ensures
        mode_for(views(args@), r),
{
    if find_arg(args, "--version").is_some() || find_arg(args, "-V").is_some() {
        return CliMode::Version;
    }
    if find_arg(args, "--service").is_some() {
        return CliMode::Service;
    }
    if find_arg(args, "--uninstall").is_some() {
        return CliMode::Uninstall;
    }
    if find_arg(args, "--install").is_some() {
        return CliMode::Install { server: value_after(args, "--server") };
    }
    if is_sub_command(args, "reset") {
        return CliMode::Reset;
    }
    if is_sub_command(args, "logs") {
        let follow = find_arg(args, "-f").is_some() || find_arg(args, "--follow").is_some();
        let asked: usize = match value_after(args, "-n") {
            Some(v) => match parse_usize(v.as_str()) {
                Some(n) => n,
                None => 100,
            },
            None => 100,
        };
        let lines: usize = if asked < 1 {
            1
        } else if asked > 2000 {
            2000
        } else {
            asked
        };
        return CliMode::Logs { follow, lines };
    }
    if is_sub_command(args, "settings") {
        return CliMode::Settings;
    }
    if is_sub_command(args, "traffic") {
        return CliMode::Traffic;
    }
    if find_arg(args, "--agent").is_some() {
        return CliMode::Agent;
    }
    CliMode::Console
}

/// Whether a start calls for administrator rights: all do but the workers and
/// the commands that only read.
pub open spec fn elevation_due(args: Seq<Seq<char>>, skipped: bool) -> bool {
    !skipped && !has_arg(args, "--service"@) && !has_arg(args, "--agent"@) && sub_command(args)
        != Some("logs"@) && sub_command(args) != Some("settings"@) && sub_command(args) != Some(
        "traffic"@,
    )
}

/// Whether a start calls for administrator rights. `skipped` says that the
/// environment asks for none.
pub fn needs_elevation(args: &Vec<String>, skipped: bool) -> (r: bool)
    ensures
        r == elevation_due(views(args@), skipped),
{
    !skipped && !find_arg(args, "--service").is_some() && !find_arg(args, "--agent").is_some()
        && !is_sub_command(args, "logs") && !is_sub_command(args, "settings") && !is_sub_command(
        args,
        "traffic",
    )
}

/// The server that an operator chose on the first start.
#[derive(Debug, Clone, Copy, PartialEq, Eq, Structural)]
pub enum ServerChoice {
    Official,
    Custom,
    Neither,
}

/// Reads the choice of a server.
pub fn parse_server_choice(choice: &str) -> (r: ServerChoice)
    ensures
        r == if choice@ == "1"@ {
            ServerChoice::Official
        } else if choice@ == "2"@ {
            ServerChoice::Custom
        } else {
            ServerChoice::Neither
        },
        r == choice_of(choice@),
{
    if same_text(choice, "1") {
        ServerChoice::Official
    } else if same_text(choice, "2") {
        ServerChoice::Custom
    } else {
        ServerChoice::Neither
    }
}

/// What stands in the way of starting the agent from the console.
#[derive(Debug, Clone, Copy, PartialEq, Eq, Structural)]
pub enum StartVerdict {
    /// It runs already, under this process id.
    Running(u32),
    /// The service runs and would fight over the device's session.
    ServiceRunning,
    Go,
}

/// Decides whether the console may start the agent, given the process id that
/// was stored, whether that process runs, and whether the service does.
pub fn start_verdict(pid: Option<u32>, pid_running: bool, service_running: bool) -> (r:
    StartVerdict)
    ensures
        r == match pid {
            Some(p) => if pid_running {
                StartVerdict::Running(p)
            } else if service_running {
                StartVerdict::ServiceRunning
            } else {
                StartVerdict::Go
            },
            None => if service_running {
                StartVerdict::ServiceRunning
            } else {
                StartVerdict::Go
            },
        },
        r == verdict_of(pid, pid_running, service_running),
{
    match pid {
        Some(p) => {
            if pid_running {
                return StartVerdict::Running(p);
            }
        },
        None => {},
    }
    if service_running {
        StartVerdict::ServiceRunning
    } else {
        StartVerdict::Go
    }
}

/// The pipe on which an agent answers its console.
pub fn agent_pipe_name(pid: u32) -> (r: String)
    ensures
        r@ == "\\\\.\\pipe\\TunnelControl-agent-"@ + dec(pid as nat),
{
    let mut out = "\\\\.\\pipe\\TunnelControl-agent-".to_owned();
    out.append(decimal(pid as u128).as_str());
    out
}

/// Whether what was read so far from a pipe is enough.
#[derive(Debug, Clone, Copy, PartialEq, Eq, Structural)]
pub enum PipeRead {
    /// A whole line is there.
    Complete,
    /// No line ended where one must have.
    TooLong,
    /// Read on.
    More,
}

/// The most that a console may ask for in one line, in bytes.
pub const IPC_REQUEST_MAX: usize = 4096;

/// What the bytes read so far come to, of which at most `max` may make a line.
pub open spec fn pipe_state(bytes: Seq<u8>, max: usize) -> PipeRead {
    if bytes.contains(10u8) {
        PipeRead::Complete
    } else if bytes.len() > max {
        PipeRead::TooLong
    } else {
        PipeRead::More
    }
}

/// Where the first line ends.
fn line_end(bytes: &[u8]) -> (r: usize)
    ensures
        r <= bytes@.len(),
        r < bytes@.len() ==> bytes@[r as int] == 10,
        forall|j: int| 0 <= j < r ==> bytes@[j] != 10,
{
    let mut i: usize = 0;
    while i < bytes.len()
        invariant
            i <= bytes@.len(),
            forall|j: int| 0 <= j < i ==> bytes@[j] != 10,
        decreases bytes@.len() - i,
    {
        if bytes[i] == 10 {
            return i;
        }
        i += 1;
    }
    i
}

/// Whether a console's request is there.
pub fn ipc_request_state(bytes: &[u8]) -> (r: PipeRead)
    ensures
        r == pipe_state(bytes@, IPC_REQUEST_MAX),
{
    read_state(bytes, IPC_REQUEST_MAX)
}

/// Whether an agent's answer is there.
pub fn ipc_response_state(bytes: &[u8]) -> (r: PipeRead)
    ensures
        r == pipe_state(bytes@, MAX_FRAME_BYTES),
{
    read_state(bytes, MAX_FRAME_BYTES)
}

fn read_state(bytes: &[u8], max: usize) -> (r: PipeRead)
    ensures
        r == pipe_state(bytes@, max),
{
    let n: usize = line_end(bytes);
    if n < bytes.len() {
        assert(bytes@[n as int] == 10u8);
        return PipeRead::Complete;
    }
    proof {
        if bytes@.contains(10u8) {
            let j = choose|j: int| 0 <= j < bytes@.len() && bytes@[j] == 10u8;
            assert(bytes@[j] != 10);
        }
    }
    if bytes.len() > max {
        PipeRead::TooLong
    } else {
        PipeRead::More
    }
}

/// The first line of bytes, without its line feed.
pub fn first_line(bytes: &[u8]) -> (r: &[u8])
    ensures
        exists|n: int|
            0 <= n <= bytes@.len() && r@ == #[trigger] bytes@.take(n) && (forall|j: int|
                0 <= j < n ==> bytes@[j] != 10) && (n < bytes@.len() ==> bytes@[n] == 10),
{
    let n: usize = line_end(bytes);
    let r = vstd::slice::slice_subrange(bytes, 0, n);
    assert(r@ =~= bytes@.take(n as int));
    r
}

/// Whether a console asks for a snapshot, the one thing it may ask for.
pub fn is_snapshot_request(cmd: &str) -> (r: bool)
    ensures
        r == (cmd@ == "snapshot"@),
{
    same_text(cmd, "snapshot")
}

/// What is done about a start.
pub open spec fn verdict_of(
    pid: Option<u32>,
    pid_running: bool,
    service_running: bool,
) -> StartVerdict {
    if pid is Some && pid_running {
        StartVerdict::Running(pid->0)
    } else if service_running {
        StartVerdict::ServiceRunning
    } else {
        StartVerdict::Go
    }
}

/// The server that an answer chooses.
pub open spec fn choice_of(choice: Seq<char>) -> ServerChoice {
    if choice == "1"@ {
        ServerChoice::Official
    } else if choice == "2"@ {
        ServerChoice::Custom
    } else {
        ServerChoice::Neither
    }
}

/// An agent is started only where none runs, neither by itself nor as the
/// service; one that runs by itself is named.
pub proof fn one_agent_runs(pid: u32, pid_running: bool, service_running: bool)
    ensures
        verdict_of(Some(pid), pid_running, service_running) == StartVerdict::Go <==> !pid_running
            && !service_running,
        verdict_of(Some(pid), true, service_running) == StartVerdict::Running(pid),
        verdict_of(Some(pid), false, true) == StartVerdict::ServiceRunning,
        verdict_of(None, pid_running, true) == StartVerdict::ServiceRunning,
        verdict_of(None, pid_running, false) == StartVerdict::Go,
{
}

/// The first server offered is the official one, the second one's own.
pub proof fn choices_by_number(choice: Seq<char>)
    ensures
        choice_of(choice) is Official <==> choice == seq!['1'],
        choice_of(choice) is Custom <==> choice == seq!['2'],
{
    reveal_strlit("1");
    reveal_strlit("2");
    assert("1"@ =~= seq!['1']);
    assert("2"@ =~= seq!['2']);
    assert("1"@[0] != "2"@[0]);
}

/// A process id that was written is read back, with or without a line feed
/// after it. One that does not fit is none, nor is an empty file or a sign.
pub proof fn written_pid_is_read(pid: nat)
    ensures
        pid <= 4_294_967_295 ==> pid_of(dec(pid)) == Some(pid),
        pid <= 4_294_967_295 ==> pid_of(dec(pid) + seq!['\n']) == Some(pid),
        pid > 4_294_967_295 ==> pid_of(dec(pid)) is None,
        pid_of(Seq::empty()) is None,
        pid_of(seq!['+'] + dec(pid)) is None,
{
    let d = dec(pid);
    lemma_dec_digits(pid);
    assert(is_digit(d[0]) && is_digit(d[d.len() - 1]));
    trimming_cuts_ends(Seq::empty(), d, Seq::empty());
    assert(Seq::<char>::empty() + d + Seq::<char>::empty() =~= d);
    trimming_cuts_ends(Seq::empty(), d, seq!['\n']);
    assert(Seq::<char>::empty() + d + seq!['\n'] =~= d + seq!['\n']);
    let p = seq!['+'] + d;
    assert(p.last() == d.last());
    trimming_cuts_ends(Seq::empty(), p, Seq::empty());
    assert(Seq::<char>::empty() + p + Seq::<char>::empty() =~= p);
    assert(p[0] == '+' && !is_digit(p[0]));
}

/// Taking out zero characters leaves none of them, leaves the others as they
/// are, and can be done part by part.
pub proof fn nuls_are_taken_out(a: Seq<char>, b: Seq<char>)
    ensures
        !without_nuls(a).contains('\0'),
        !a.contains('\0') ==> without_nuls(a) == a,
        without_nuls(a + b) == without_nuls(a) + without_nuls(b),
        without_nuls(a.push('\0')) == without_nuls(a),
    decreases a.len() + b.len(),
{
    assert(a.push('\0').drop_last() =~= a);
    if a.len() > 0 {
        nuls_are_taken_out(a.drop_last(), Seq::empty());
        if !a.contains('\0') {
            assert(a.last() != '\0');
            assert forall|c: char| a.drop_last().contains(c) implies a.contains(c) by {
                let j = choose|j: int| 0 <= j < a.drop_last().len() && a.drop_last()[j] == c;
                assert(a[j] == c);
            }
            assert(!a.drop_last().contains('\0'));
            assert(a.drop_last().push(a.last()) =~= a);
        }
        let w = without_nuls(a);
        if w.contains('\0') {
            let j = choose|j: int| 0 <= j < w.len() && w[j] == '\0';
            let v = without_nuls(a.drop_last());
            if a.last() == '\0' {
                assert(v[j] == '\0');
                assert(v.contains('\0'));
            } else if j < v.len() {
                assert(v[j] == '\0');
                assert(v.contains('\0'));
            }
        }
    }
    if b.len() == 0 {
        assert(a + b =~= a);
        assert(without_nuls(a + b) =~= without_nuls(a) + without_nuls(b));
    } else {
        nuls_are_taken_out(a, b.drop_last());
        assert((a + b).drop_last() =~= a + b.drop_last());
        assert((a + b).last() == b.last());
        assert(without_nuls(a + b) =~= without_nuls(a) + without_nuls(b));
    }
}

/// Each command has its own word, and is given by no other.
pub proof fn commands_by_word(line: Seq<char>)
    ensures
        command_of(line) == ConsoleCommand::Start <==> line == "start"@,
        command_of(line) == ConsoleCommand::Stop <==> line == "stop"@,
        command_of(line) == ConsoleCommand::Restart <==> line == "restart"@,
        command_of(line) == ConsoleCommand::Reset <==> line == "reset"@,
        command_of(line) == ConsoleCommand::Status <==> line == "status"@,
        command_of(line) == ConsoleCommand::Settings <==> line == "settings"@,
        command_of(line) == ConsoleCommand::Traffic <==> line == "traffic"@,
        command_of(line) == ConsoleCommand::Logs <==> line == "logs"@,
        command_of(line) == ConsoleCommand::Exit <==> line == "exit"@,
        command_of(line) == ConsoleCommand::Help <==> line == "help"@,
        command_of(line) == ConsoleCommand::Blank <==> line.len() == 0,
{
    reveal_strlit("start");
    reveal_strlit("stop");
    reveal_strlit("restart");
    reveal_strlit("reset");
    reveal_strlit("status");
    reveal_strlit("settings");
    reveal_strlit("traffic");
    reveal_strlit("logs");
    reveal_strlit("exit");
    reveal_strlit("help");
    reveal_strlit("");
    if line.len() == 0 {
        assert(line =~= ""@);
    }
    assert("start"@.len() == 5 && "stop"@.len() == 4 && "reset"@.len() == 5);
    assert("start"@[0] == 's' && "reset"@[0] == 'r');
    assert("stop"@[0] == 's' && "logs"@[0] == 'l' && "exit"@[0] == 'e' && "help"@[0] == 'h');
    assert("restart"@[0] == 'r' && "traffic"@[0] == 't');
    assert("status"@.len() == 6 && "settings"@.len() == 8);
}

/// An option's value is the argument after the first place where the option
/// stands; an option that does not stand there, or stands last, has none.
pub proof fn value_follows_its_option(
    before: Seq<Seq<char>>,
    a: Seq<char>,
    x: Seq<char>,
    after: Seq<Seq<char>>,
)
    requires
        !before.contains(a),
    ensures
        arg_after(before + seq![a, x] + after, a) == Some(x),
        arg_after(before.push(a), a) is None,
        arg_after(before, a) is None,
        has_arg(before + seq![a, x] + after, a),
        !has_arg(before, a),
{
    let s = before + seq![a, x] + after;
    let n = before.len() as int;
    assert forall|j: int| 0 <= j < n implies before[j] != a by {
        assert(before.contains(before[j]));
    }
    assert forall|j: int| 0 <= j < n implies s[j] != a by {
        assert(s[j] == before[j]);
    }
    assert(s[n] == a && s[n + 1] == x);
    lemma_arg_after(s, a, n);
    assert forall|j: int| 0 <= j < n implies before.push(a)[j] != a by {
        assert(before.push(a)[j] == before[j]);
    }
    lemma_arg_after(before.push(a), a, n);
    lemma_arg_after(before, a, n);
}

/// As many lines are shown as asked for, from one to two thousand; a hundred
/// where no number is asked for.
pub proof fn lines_as_asked(
    before: Seq<Seq<char>>,
    n: nat,
    after: Seq<Seq<char>>,
    s: Seq<char>,
)
    requires
        !before.contains("-n"@),
        n <= usize::MAX,
        unsigned_value(s, usize::MAX as nat) is None,
    ensures
        1 <= n <= 2000 ==> lines_of(before + seq!["-n"@, dec(n)] + after) == n,
        n > 2000 ==> lines_of(before + seq!["-n"@, dec(n)] + after) == 2000,
        n == 0 ==> lines_of(before + seq!["-n"@, dec(n)] + after) == 1,
        lines_of(before + seq!["-n"@, s] + after) == 100,
        lines_of(before) == 100,
{
    value_follows_its_option(before, "-n"@, dec(n), after);
    value_follows_its_option(before, "-n"@, s, after);
    number_round_trip(n, usize::MAX as nat);
}

/// What a program is started for: the version is shown whatever else is asked,
/// the service runs before anything else is looked at, and so on down to the
/// console, which opens where nothing is asked for.
pub proof fn modes_by_priority(args: Seq<Seq<char>>, mode: CliMode)
    requires
        mode_for(args, mode),
    ensures
        args.contains("--version"@) || args.contains("-V"@) <==> mode is Version,
        args.contains("--service"@) ==> mode is Service || mode is Version,
        mode is Service ==> args.contains("--service"@),
        args.contains("--uninstall"@) ==> mode is Uninstall || mode is Service || mode is Version,
        mode is Uninstall ==> args.contains("--uninstall"@),
        args.contains("--install"@) ==> mode is Install || mode is Uninstall || mode is Service
            || mode is Version,
        mode is Install ==> args.contains("--install"@),
        mode matches CliMode::Install { server } ==> (server is Some <==> arg_after(
            args,
            "--server"@,
        ) is Some) && (server matches Some(s) ==> arg_after(args, "--server"@) == Some(s@)),
        mode is Reset ==> args.len() > 1 && args[1] == "reset"@,
        mode is Logs ==> args.len() > 1 && args[1] == "logs"@,
        mode is Settings ==> args.len() > 1 && args[1] == "settings"@,
        mode is Traffic ==> args.len() > 1 && args[1] == "traffic"@,
        mode is Agent ==> args.contains("--agent"@),
        args.contains("--agent"@) ==> !(mode is Console),
        args.len() <= 1 ==> !(mode is Reset || mode is Logs || mode is Settings || mode is Traffic),
        args.len() > 1 && (args[1] == "reset"@ || args[1] == "logs"@ || args[1] == "settings"@
            || args[1] == "traffic"@) ==> !(mode is Console) && !(mode is Agent),
        mode matches CliMode::Logs { follow, lines } ==> (follow <==> args.contains("-f"@)
            || args.contains("--follow"@)) && 1 <= lines <= 2000,
{
}

/// The rights of an administrator are asked for exactly by what changes the
/// system: not by the agent or the service itself, nor by what only shows.
pub proof fn elevation_for_changes(args: Seq<Seq<char>>, mode: CliMode)
    requires
        mode_for(args, mode),
    ensures
        !elevation_due(args, true),
        mode is Service || mode is Agent || mode is Logs || mode is Settings || mode is Traffic
            ==> !elevation_due(args, false),
        mode is Console || mode is Reset ==> (elevation_due(args, false) <==> !args.contains(
            "--service"@,
        ) && !args.contains("--agent"@)),
        args.len() <= 1 && !args.contains("--service"@) && !args.contains("--agent"@)
            ==> elevation_due(args, false),
{
    reveal_strlit("reset");
    reveal_strlit("logs");
    reveal_strlit("settings");
    reveal_strlit("traffic");
    assert("reset"@.len() == 5 && "logs"@.len() == 4 && "settings"@.len() == 8 && "traffic"@.len()
        == 7);
}

/// A request may have 4096 bytes before its line ends, an answer a mebibyte. A
/// line that has ended is whole, however long it is.
pub proof fn pipe_lines_are_bounded(bytes: Seq<u8>, more: Seq<u8>)
    ensures
        pipe_state(bytes, IPC_REQUEST_MAX) == PipeRead::More <==> !bytes.contains(10)
            && bytes.len() <= 4096,
        pipe_state(bytes, MAX_FRAME_BYTES) == PipeRead::More <==> !bytes.contains(10)
            && bytes.len() <= 1_048_576,
        pipe_state(bytes, IPC_REQUEST_MAX) == PipeRead::TooLong <==> !bytes.contains(10)
            && bytes.len() > 4096,
        pipe_state(bytes, MAX_FRAME_BYTES) == PipeRead::TooLong <==> !bytes.contains(10)
            && bytes.len() > 1_048_576,
        pipe_state(bytes + seq![10u8] + more, IPC_REQUEST_MAX) == PipeRead::Complete,
{
    let s = bytes + seq![10u8] + more;
    assert(s[bytes.len() as int] == 10);
}

proof fn lemma_escaped_len(s: Seq<char>, n: nat)
    ensures
        escaped(s, n).len() >= n + s.len(),
    decreases s.len(),
{
    if s.len() > 0 {
        if s.first() == '\\' {
            lemma_escaped_len(s.drop_first(), n + 1);
        } else {
            lemma_escaped_len(s.drop_first(), 0);
        }
    }
}

/// An argument is quoted exactly where it is empty or holds a space, a tab, a
/// line break, a form feed or a quotation mark. Others stay as they are.
pub proof fn quoted_only_where_needed(s: Seq<char>)
    ensures
        quoted_argument(s) == s <==> s.len() > 0 && !s.contains(' ') && !s.contains('\t')
            && !s.contains('\n') && !s.contains('\r') && !s.contains('\x0c') && !s.contains('"'),
        quoted_argument(Seq::empty()) == seq!['"', '"'],
        quoted_argument(s) != s ==> quoted_argument(s).first() == '"' && quoted_argument(s).last()
            == '"',
{
    lemma_escaped_len(s, 0);
    assert(escaped(Seq::empty(), 0) =~= Seq::<char>::empty());
    assert(quoted_argument(Seq::empty()) =~= seq!['"', '"']);
    if !plain_argument(s) {
        assert(quoted_argument(s).len() > s.len());
        if s.len() > 0 {
            let i = choose|i: int| 0 <= i < s.len() && breaks_argument(s[i]);
            assert(s.contains(s[i]));
        }
    } else {
        assert forall|c: char| breaks_argument(c) implies !s.contains(c) by {
            if s.contains(c) {
                let i = choose|i: int| 0 <= i < s.len() && s[i] == c;
                assert(!breaks_argument(s[i]));
            }
        }
        assert(breaks_argument(' ') && breaks_argument('\t') && breaks_argument('\n'));
        assert(breaks_argument('\r') && breaks_argument('\x0c') && breaks_argument('"'));
    }
}

} // verus!
