//! What the client console shows: byte counts, traffic, settings and state.

use vstd::arithmetic::power2::pow2;
use vstd::prelude::*;

use crate::agent_config::text_view;
use crate::number::{dec, decimal, decimal_injective};
use crate::protocol::AgentSettings;
use crate::text::views;
use crate::traffic::{saturated, IpcChannelStat, IpcSnapshot};

verus! {

/// A quotient rounded to the nearest whole number, and to the even one of two
/// that are equally near.
pub open spec fn round_even(n: nat, d: nat) -> nat {
    let q = n / d;
    let r = n % d;
    if 2 * r > d || (2 * r == d && q % 2 == 1) {
        q + 1
    } else {
        q
    }
}

/// The bits that a number has over 53.
pub open spec fn excess_bits(n: nat) -> nat
    decreases n,
{
    if n < 9_007_199_254_740_992 {
        0
    } else {
        1 + excess_bits(n / 2)
    }
}

/// The nearest number with 53 significant bits.
pub open spec fn nearest_53(n: nat) -> nat {
    let unit = pow2(excess_bits(n));
    round_even(n, unit) * unit
}

/// The size of the largest unit that a number of bytes from 1024 on fills, and
/// its name.
pub open spec fn unit_of(n: nat) -> (nat, Seq<char>) {
    if n < 1_048_576 {
        (1024, "KB"@)
    } else if n < 1_073_741_824 {
        (1_048_576, "MB"@)
    } else if n < 1_099_511_627_776 {
        (1_073_741_824, "GB"@)
    } else {
        (1_099_511_627_776, "TB"@)
    }
}

/// Tenths with one decimal place, or none where it would be zero.
pub open spec fn tenths_text(tenths: nat) -> Seq<char> {
    if tenths % 10 == 0 {
        dec(tenths / 10)
    } else {
        dec(tenths / 10) + "."@ + dec(tenths % 10)
    }
}

/// A byte count as it is shown.
pub open spec fn bytes_text(bytes: u64) -> Seq<char> {
    if bytes < 1024 {
        dec(bytes as nat) + " B"@
    } else {
        let n = nearest_53(bytes as nat);
        let (size, name) = unit_of(n);
        tenths_text(round_even(10 * n, size)) + " "@ + name
    }
}

fn rounded(n: u128, d: u128) -> (r: u128)
    requires
        0 < d <= 1_099_511_627_776,
        n <= 0x1_0000_0000_0000_0000_0000,
    ensures
        r == round_even(n as nat, d as nat),
        r * d <= n + d,
        r <= n + 1,
{
    let q: u128 = n / d;
    let m: u128 = n % d;
    proof {
        assert(q * d + m == n && q <= n) by (nonlinear_arith)
            requires
                d > 0,
                q == n / d,
                m == n % d,
        ;
        assert((q + 1) * d == q * d + d) by (nonlinear_arith);
    }
    if 2 * m > d || (2 * m == d && q % 2 == 1) {
        q + 1
    } else {
        q
    }
}

fn nearest(n: u64) -> (r: u128)
    ensures
        r == nearest_53(n as nat),
        r <= n + 4096,
{
    let mut rest: u64 = n;
    let mut unit: u128 = 1;
    let ghost mut shift: nat = 0;
    proof {
        vstd::arithmetic::power2::lemma2_to64();
    }
    while rest >= 9_007_199_254_740_992
        invariant
            excess_bits(n as nat) == shift + excess_bits(rest as nat),
            unit == pow2(shift),
            unit * rest <= n,
            1 <= unit <= 4096,
        decreases rest,
    {
        proof {
            vstd::arithmetic::power2::lemma_pow2_unfold(shift + 1);
            let h = (rest / 2) as int;
            assert((unit * 2) * h <= unit * rest) by (nonlinear_arith)
                requires
                    2 * h <= rest,
                    unit >= 0,
            ;
            assert(unit * rest >= unit * 9_007_199_254_740_992) by (nonlinear_arith)
                requires
                    rest >= 9_007_199_254_740_992,
                    unit >= 0,
            ;
            shift = shift + 1;
        }
        unit = unit * 2;
        rest = rest / 2;
    }
    let q: u128 = rounded(n as u128, unit);
    q * unit
}

/// Shows a byte count with units of 1024, and one decimal place where that is
/// not zero.
pub fn format_bytes(bytes: u64) -> (r: String)
    ensures
        r@ == bytes_text(bytes),
{
    if bytes < 1024 {
        let mut out = decimal(bytes as u128);
        out.append(" B");
        return out;
    }
    let n: u128 = nearest(bytes);
    let size: u128;
    let name: &str;
    if n < 1_048_576 {
        size = 1024;
        name = "KB";
    } else if n < 1_073_741_824 {
        size = 1_048_576;
        name = "MB";
    } else if n < 1_099_511_627_776 {
        size = 1_073_741_824;
        name = "GB";
    } else {
        size = 1_099_511_627_776;
        name = "TB";
    }
    let tenths: u128 = rounded(10 * n, size);
    let mut out = decimal(tenths / 10);
    if tenths % 10 != 0 {
        out.append(".");
        out.append(decimal(tenths % 10).as_str());
    }
    out.append(" ");
    out.append(name);
    out
}

/// How `chrono` shows a Unix time on a clock that is ahead of UTC by so many
/// seconds: as year, month, day, hour, minute and second.
pub uninterp spec fn clock_text(secs: i64, offset: i32) -> Seq<char>;

/// Whether a text shows a Unix time on the clock of some time zone. Every zone
/// is less than a day from UTC.
pub open spec fn shows_time(text: Seq<char>, secs: i64) -> bool {
    exists|offset: i32| -86_400 < offset < 86_400 && text == #[trigger] clock_text(secs, offset)
}

/// A Unix time on the machine's clock in its own time zone, from `chrono`:
/// `DateTime::from_timestamp`, `with_timezone` to `Local`, and `format` as year,
/// month, day, hour, minute and second. There is one exactly for the times that
/// `chrono` can represent. It depends on the time and on the offset of the
/// machine's zone at that time; which offset that is, is left open.
#[verifier::external_body]
fn local_time(secs: i64) -> (r: Option<String>)
    ensures
        r is Some <==> -8_334_601_228_800 <= secs <= 8_210_266_876_799,
        r matches Some(text) ==> exists|offset: i32|
            -86_400 < offset < 86_400 && text@ == #[trigger] clock_text(secs, offset),
{
    let time = chrono::DateTime::from_timestamp(secs, 0)?;
    let local = time.with_timezone(&chrono::Local);
    Some(local.format("%Y-%m-%d %H:%M:%S").to_string())
}

/// A Unix time as it is shown: on the local clock, or as a number where that
/// cannot show it.
pub open spec fn time_text(secs: u64, local: Option<Seq<char>>) -> Seq<char> {
    match local {
        Some(text) => text,
        None => dec(secs as nat) + " (Unix)"@,
    }
}

/// A Unix time as it is shown, given what the local clock makes of it.
pub fn unix_time_text(secs: u64, local: Option<String>) -> (r: String)
    ensures
        r@ == time_text(secs, text_view(local)),
{
    match local {
        Some(text) => text,
        None => {
            let mut out = decimal(secs as u128);
            out.append(" (Unix)");
            out
        },
    }
}

/// A Unix time on the local clock. The highest numbers stand for the times
/// before 1970.
pub fn format_unix_time(secs: u64) -> (r: String)
    ensures
        secs <= 8_210_266_876_799 ==> shows_time(r@, secs as i64),
        secs >= 18_446_735_739_108_322_816 ==> shows_time(
            r@,
            (secs - 18_446_744_073_709_551_616) as i64,
        ),
        8_210_266_876_799 < secs < 18_446_735_739_108_322_816 ==> r@ == time_text(secs, None),
{
    let signed: i64 = if secs <= 9_223_372_036_854_775_807 {
        secs as i64
    } else {
        (secs as i128 - 18_446_744_073_709_551_616) as i64
    };
    unix_time_text(secs, local_time(signed))
}

/// Whether a channel is bound, in words.
pub open spec fn state_name(connected: bool) -> Seq<char> {
    if connected {
        "在线"@
    } else {
        "离线"@
    }
}

/// The line of one channel.
pub open spec fn channel_line(c: IpcChannelStat) -> Seq<char> {
    "  通道 "@ + dec(c.channel_id as nat) + " : 上行 "@ + bytes_text(c.up_bytes) + " / 下行 "@
        + bytes_text(c.down_bytes) + " / 合计 "@ + bytes_text(saturated(c.up_bytes, c.down_bytes))
        + " ("@ + state_name(c.connected) + ")"@
}

/// The lines of every channel.
pub open spec fn channel_lines(s: Seq<IpcChannelStat>) -> Seq<Seq<char>> {
    Seq::new(s.len(), |i: int| channel_line(s[i]))
}

/// The lines of a traffic report.
pub open spec fn traffic_lines(s: IpcSnapshot, shown_at: Seq<char>) -> Seq<Seq<char>> {
    seq!["流量统计(截至 "@ + shown_at + ")"@] + (if s.channels@.len() == 0 {
        seq!["  尚无数据通道流量统计。"@]
    } else {
        channel_lines(s.channels@)
    }) + seq![
        "  合计   : 上行 "@ + bytes_text(s.totals.up_bytes) + " / 下行 "@ + bytes_text(
            s.totals.down_bytes,
        ) + " / 总计 "@ + bytes_text(s.totals.total_bytes),
    ]
}

fn channel_report(c: &IpcChannelStat) -> (r: String)
    ensures
        r@ == channel_line(*c),
{
    let mut out = "  通道 ".to_owned();
    out.append(decimal(c.channel_id as u128).as_str());
    out.append(" : 上行 ");
    out.append(format_bytes(c.up_bytes).as_str());
    out.append(" / 下行 ");
    out.append(format_bytes(c.down_bytes).as_str());
    out.append(" / 合计 ");
    out.append(format_bytes(c.up_bytes.saturating_add(c.down_bytes)).as_str());
    out.append(" (");
    if c.connected {
        out.append("在线");
    } else {
        out.append("离线");
    }
    out.append(")");
    out
}

/// The lines that show a snapshot's traffic.
pub fn traffic_report(snapshot: &IpcSnapshot, shown_at: &str) -> (r: Vec<String>)
    ensures
        views(r@) == traffic_lines(*snapshot, shown_at@),
{
    let mut out: Vec<String> = Vec::new();
    let mut head = "流量统计(截至 ".to_owned();
    head.append(shown_at);
    head.append(")");
    out.push(head);
    let ghost first = out@;
    if snapshot.channels.len() == 0 {
        out.push("  尚无数据通道流量统计。".to_owned());
    } else {
        let mut i: usize = 0;
        while i < snapshot.channels.len()
            invariant
                i <= snapshot.channels@.len(),
                views(out@) == views(first) + channel_lines(snapshot.channels@.take(i as int)),
            decreases snapshot.channels@.len() - i,
        {
            let line = channel_report(&snapshot.channels[i]);
            let ghost prior = out@;
            out.push(line);
            proof {
                let done = snapshot.channels@.take(i as int);
                assert(channel_lines(snapshot.channels@.take(i + 1)) =~= channel_lines(done).push(
                    line@,
                ));
                assert(views(out@) =~= views(prior).push(line@));
            }
            i += 1;
        }
        assert(snapshot.channels@.take(snapshot.channels@.len() as int) =~= snapshot.channels@);
    }
    let ghost middle = out@;
    let mut total = "  合计   : 上行 ".to_owned();
    total.append(format_bytes(snapshot.totals.up_bytes).as_str());
    total.append(" / 下行 ");
    total.append(format_bytes(snapshot.totals.down_bytes).as_str());
    total.append(" / 总计 ");
    total.append(format_bytes(snapshot.totals.total_bytes).as_str());
    out.push(total);
    assert(views(out@) =~= views(middle).push(total@));
    assert(views(out@) =~= traffic_lines(*snapshot, shown_at@));
    out
}

/// The lines of a settings report.
pub open spec fn settings_lines(s: AgentSettings, synced: Option<Seq<char>>) -> Seq<Seq<char>> {
    seq![
        match synced {
            Some(time) => "服务器下发设置(同步时间 "@ + time + ")"@,
            None => "尚未收到服务器下发设置(当前为本地默认)"@,
        },
        "  设备名称    : "@ + s.device_name@,
        "  服务器地址  : "@ + s.server_url@,
        "  数据通道数  : "@ + dec(s.data_channels as nat),
        "  心跳间隔    : "@ + dec(s.heartbeat_secs as nat) + " 秒"@,
        "  PONG 超时   : "@ + dec(s.pong_timeout_secs as nat) + " 秒"@,
        "  重连最小间隔: "@ + dec(s.reconnect_min_secs as nat) + " 秒"@,
        "  重连最大间隔: "@ + dec(s.reconnect_max_secs as nat) + " 秒"@,
        "  日志级别    : "@ + s.log_level@,
    ]
}

fn labelled(label: &str, value: &str, unit: &str) -> (r: String)
    ensures
        r@ == label@ + value@ + unit@,
{
    let mut out = label.to_owned();
    out.append(value);
    out.append(unit);
    out
}

/// The lines that show the settings in force, given when they were pushed.
pub fn settings_report(s: &AgentSettings, synced: Option<String>) -> (r: Vec<String>)
    ensures
        views(r@) == settings_lines(*s, text_view(synced)),
{
    let head = match &synced {
        Some(time) => labelled("服务器下发设置(同步时间 ", time.as_str(), ")"),
        None => "尚未收到服务器下发设置(当前为本地默认)".to_owned(),
    };
    let mut out: Vec<String> = Vec::new();
    out.push(head);
    out.push(labelled("  设备名称    : ", s.device_name.as_str(), ""));
    out.push(labelled("  服务器地址  : ", s.server_url.as_str(), ""));
    out.push(labelled("  数据通道数  : ", decimal(s.data_channels as u128).as_str(), ""));
    out.push(labelled("  心跳间隔    : ", decimal(s.heartbeat_secs as u128).as_str(), " 秒"));
    out.push(labelled("  PONG 超时   : ", decimal(s.pong_timeout_secs as u128).as_str(), " 秒"));
    out.push(labelled("  重连最小间隔: ", decimal(s.reconnect_min_secs as u128).as_str(), " 秒"));
    out.push(labelled("  重连最大间隔: ", decimal(s.reconnect_max_secs as u128).as_str(), " 秒"));
    out.push(labelled("  日志级别    : ", s.log_level.as_str(), ""));
    proof {
        reveal_strlit("");
        let v = views(out@);
        let w = settings_lines(*s, text_view(synced));
        assert(v[1] =~= w[1]);
        assert(v[2] =~= w[2]);
        assert(v[3] =~= w[3]);
        assert(v[8] =~= w[8]);
        assert(v =~= w);
    }
    out
}

/// The lines of a status report.
pub open spec fn status_lines(
    running: Option<u32>,
    server: Option<Seq<char>>,
    enrolled: bool,
    service: bool,
) -> Seq<Seq<char>> {
    seq![
        match running {
            Some(pid) => "Agent process: RUNNING (PID "@ + dec(pid as nat) + ")"@,
            None => "Agent process: stopped"@,
        },
        match server {
            Some(url) => "Server       : "@ + url,
            None => "Server       : not configured (first start will ask)"@,
        },
        if enrolled {
            "Credentials  : token issued (enrolled)"@
        } else {
            "Credentials  : pending enrollment"@
        },
        if service {
            "Service      : running (TunnelAgent)"@
        } else {
            "Service      : not running"@
        },
    ]
}

/// The lines that show the state of the agent.
pub fn status_report(
    running: Option<u32>,
    server: Option<String>,
    enrolled: bool,
    service: bool,
) -> (r: Vec<String>)
    ensures
        views(r@) == status_lines(running, text_view(server), enrolled, service),
{
    let mut out: Vec<String> = Vec::new();
    out.push(
        match running {
            Some(pid) => labelled(
                "Agent process: RUNNING (PID ",
                decimal(pid as u128).as_str(),
                ")",
            ),
            None => "Agent process: stopped".to_owned(),
        },
    );
    out.push(
        match &server {
            Some(url) => labelled("Server       : ", url.as_str(), ""),
            None => "Server       : not configured (first start will ask)".to_owned(),
        },
    );
    out.push(
        if enrolled {
            "Credentials  : token issued (enrolled)".to_owned()
        } else {
            "Credentials  : pending enrollment".to_owned()
        },
    );
    out.push(
        if service {
            "Service      : running (TunnelAgent)".to_owned()
        } else {
            "Service      : not running".to_owned()
        },
    );
    proof {
        reveal_strlit("");
        let v = views(out@);
        let w = status_lines(running, text_view(server), enrolled, service);
        assert(v[1] =~= w[1]);
        assert(v =~= w);
    }
    out
}

/// Rounding goes to the nearest whole number: it is off by half at most, and by
/// half only towards an even one.
pub proof fn rounding_is_nearest(n: nat, d: nat, k: nat)
    requires
        d > 0,
    ensures
        2 * (round_even(n, d) * d - n) <= d,
        2 * (n - round_even(n, d) * d) <= d,
        2 * (round_even(n, d) * d - n) == d || 2 * (n - round_even(n, d) * d) == d ==> round_even(
            n,
            d,
        ) % 2 == 0,
        round_even(k * d, d) == k,
{
    let q = n / d;
    let r = n % d;
    assert(q * d + r == n && r < d) by (nonlinear_arith)
        requires
            d > 0,
            q == n / d,
            r == n % d,
    ;
    assert((q + 1) * d == q * d + d) by (nonlinear_arith);
    vstd::arithmetic::div_mod::lemma_div_multiples_vanish(k as int, d as int);
    vstd::arithmetic::div_mod::lemma_mod_multiples_basic(k as int, d as int);
    assert(k * d == d * k) by (nonlinear_arith);
}

/// Numbers of up to 53 bits stay as they are; of longer ones 53 bits are kept.
pub proof fn numbers_keep_53_bits(n: nat)
    ensures
        n < 9_007_199_254_740_992 ==> nearest_53(n) == n,
        n < 9_007_199_254_740_992 * pow2(excess_bits(n)),
        n >= 9_007_199_254_740_992 ==> n >= 4_503_599_627_370_496 * pow2(excess_bits(n)),
        2 * (nearest_53(n) - n) <= pow2(excess_bits(n)),
        2 * (n - nearest_53(n)) <= pow2(excess_bits(n)),
        nearest_53(n) % pow2(excess_bits(n)) == 0,
    decreases n,
{
    vstd::arithmetic::power2::lemma2_to64();
    let e = excess_bits(n);
    vstd::arithmetic::power2::lemma_pow2_pos(e);
    let u = pow2(e);
    rounding_is_nearest(n, u, n);
    vstd::arithmetic::div_mod::lemma_mod_multiples_basic(round_even(n, u) as int, u as int);
    if n < 9_007_199_254_740_992 {
        assert(u == 1);
        assert(n * 1 == n) by (nonlinear_arith);
        assert(9_007_199_254_740_992 * u == 9_007_199_254_740_992);
    } else {
        numbers_keep_53_bits(n / 2);
        vstd::arithmetic::power2::lemma_pow2_unfold(e);
        let h = pow2((e - 1) as nat);
        assert(u == 2 * h);
        if n / 2 < 9_007_199_254_740_992 {
            assert(e == 1);
        }
    }
}

/// The unit is the largest that the number fills, up to the largest there is:
/// each is 1024 times the one before.
pub proof fn unit_is_largest_filled(n: nat)
    requires
        n >= 1024,
    ensures
        unit_of(n).0 <= n,
        n < 1024 * unit_of(n).0 || unit_of(n).0 == 1024 * 1024 * 1024 * 1024,
        unit_of(n) == (1024nat, "KB"@) || unit_of(n) == ((1024 * 1024) as nat, "MB"@) || unit_of(n)
            == ((1024 * 1024 * 1024) as nat, "GB"@) || unit_of(n) == (
            (1024 * 1024 * 1024 * 1024) as nat,
            "TB"@,
        ),
{
}

/// A tenth that is zero is not shown, any other is, after a point.
pub proof fn tenths_shown_unless_zero(k: nat, d: nat)
    requires
        1 <= d <= 9,
    ensures
        tenths_text(10 * k) == dec(k),
        tenths_text(10 * k + d) == dec(k) + "."@ + dec(d),
{
}

/// Whole numbers of a unit are shown as such, below the next unit.
pub proof fn whole_units_are_shown(k: u64)
    requires
        1 <= k < 1024,
    ensures
        bytes_text(k) == dec(k as nat) + " B"@,
        bytes_text(0) == dec(0) + " B"@,
        bytes_text((k * 1024) as u64) == dec(k as nat) + " "@ + "KB"@,
        bytes_text((k * 1_048_576) as u64) == dec(k as nat) + " "@ + "MB"@,
        bytes_text((k * 1_073_741_824) as u64) == dec(k as nat) + " "@ + "GB"@,
        bytes_text((k * 1_099_511_627_776) as u64) == dec(k as nat) + " "@ + "TB"@,
{
    lemma_whole_unit(k, 1024);
    lemma_whole_unit(k, 1_048_576);
    lemma_whole_unit(k, 1_073_741_824);
    lemma_whole_unit(k, 1_099_511_627_776);
}

proof fn lemma_whole_unit(k: u64, size: nat)
    requires
        1 <= k < 1024,
        size == 1024 || size == 1_048_576 || size == 1_073_741_824 || size == 1_099_511_627_776,
    ensures
        k * size <= u64::MAX,
        bytes_text((k * size) as u64) == dec(k as nat) + " "@ + unit_of((k * size) as nat).1,
        unit_of((k * size) as nat).0 == size,
{
    let n = (k * size) as nat;
    assert(size <= n <= 1023 * size) by (nonlinear_arith)
        requires
            1 <= k < 1024,
            n == k * size,
    ;
    numbers_keep_53_bits(n);
    rounding_is_nearest(10 * n, size, (10 * k) as nat);
    assert(10 * n == (10 * k) as nat * size) by (nonlinear_arith)
        requires
            n == k * size,
    ;
    tenths_shown_unless_zero(k as nat, 1);
}

/// A report has a line for every channel, between the time and the totals, and
/// one that says so where there is none.
pub proof fn report_has_line_per_channel(s: IpcSnapshot, shown_at: Seq<char>, i: int)
    requires
        0 <= i < s.channels@.len(),
    ensures
        traffic_lines(s, shown_at).len() == s.channels@.len() + 2,
        traffic_lines(s, shown_at)[i + 1] == channel_line(s.channels@[i]),
        state_name(true) != state_name(false),
{
    reveal_strlit("在线");
    reveal_strlit("离线");
    assert(state_name(true)[0] != state_name(false)[0]);
}

proof fn lemma_part_shows(lead: Seq<char>, x: Seq<char>, y: Seq<char>, tail: Seq<char>)
    ensures
        lead + x + tail == lead + y + tail <==> x == y,
        lead + x == lead + y <==> x == y,
{
    let a = lead + x + tail;
    let b = lead + y + tail;
    let n = lead.len() as int;
    if a == b {
        assert(a.len() == n + x.len() + tail.len() && b.len() == n + y.len() + tail.len());
        assert(x =~= a.subrange(n, n + x.len()));
        assert(y =~= b.subrange(n, n + y.len()));
    }
    if lead + x == lead + y {
        assert((lead + x).len() == n + x.len() && (lead + y).len() == n + y.len());
        assert(x =~= (lead + x).skip(n));
        assert(y =~= (lead + y).skip(n));
    }
}

proof fn lemma_number_shows(lead: Seq<char>, a: nat, b: nat, tail: Seq<char>)
    ensures
        lead + dec(a) + tail == lead + dec(b) + tail <==> a == b,
        lead + dec(a) == lead + dec(b) <==> a == b,
{
    lemma_part_shows(lead, dec(a), dec(b), tail);
    if dec(a) == dec(b) {
        decimal_injective(a, b);
    }
}

/// Each line of the settings shows its own setting: it changes with that one,
/// and with no other.
pub proof fn each_line_shows_its_setting(
    s: AgentSettings,
    t: AgentSettings,
    synced: Option<Seq<char>>,
)
    ensures
        settings_lines(s, synced).len() == 9,
        settings_lines(s, synced)[1] == settings_lines(t, synced)[1] <==> s.device_name@
            == t.device_name@,
        settings_lines(s, synced)[2] == settings_lines(t, synced)[2] <==> s.server_url@
            == t.server_url@,
        settings_lines(s, synced)[3] == settings_lines(t, synced)[3] <==> s.data_channels
            == t.data_channels,
        settings_lines(s, synced)[4] == settings_lines(t, synced)[4] <==> s.heartbeat_secs
            == t.heartbeat_secs,
        settings_lines(s, synced)[5] == settings_lines(t, synced)[5] <==> s.pong_timeout_secs
            == t.pong_timeout_secs,
        settings_lines(s, synced)[6] == settings_lines(t, synced)[6] <==> s.reconnect_min_secs
            == t.reconnect_min_secs,
        settings_lines(s, synced)[7] == settings_lines(t, synced)[7] <==> s.reconnect_max_secs
            == t.reconnect_max_secs,
        settings_lines(s, synced)[8] == settings_lines(t, synced)[8] <==> s.log_level@
            == t.log_level@,
{
    let none = Seq::<char>::empty();
    let sec = " 秒"@;
    lemma_part_shows("  设备名称    : "@, s.device_name@, t.device_name@, none);
    lemma_part_shows("  服务器地址  : "@, s.server_url@, t.server_url@, none);
    lemma_number_shows("  数据通道数  : "@, s.data_channels as nat, t.data_channels as nat, none);
    lemma_number_shows("  心跳间隔    : "@, s.heartbeat_secs as nat, t.heartbeat_secs as nat, sec);
    lemma_number_shows(
        "  PONG 超时   : "@,
        s.pong_timeout_secs as nat,
        t.pong_timeout_secs as nat,
        sec,
    );
    lemma_number_shows(
        "  重连最小间隔: "@,
        s.reconnect_min_secs as nat,
        t.reconnect_min_secs as nat,
        sec,
    );
    lemma_number_shows(
        "  重连最大间隔: "@,
        s.reconnect_max_secs as nat,
        t.reconnect_max_secs as nat,
        sec,
    );
    lemma_part_shows("  日志级别    : "@, s.log_level@, t.log_level@, none);
}

/// The state says whether the agent runs and under which process id, which
/// server it has, whether it is enrolled, and whether the service runs.
pub proof fn state_is_told(
    pid: u32,
    other: u32,
    url: Seq<char>,
    running: Option<u32>,
    server: Option<Seq<char>>,
    enrolled: bool,
    service: bool,
)
    ensures
        status_lines(running, server, enrolled, service).len() == 4,
        status_lines(Some(pid), server, enrolled, service)[0] == status_lines(
            Some(other),
            server,
            enrolled,
            service,
        )[0] <==> pid == other,
        status_lines(None, server, enrolled, service)[0] == "Agent process: stopped"@,
        status_lines(running, Some(url), enrolled, service)[1] == "Server       : "@ + url,
        status_lines(running, server, enrolled, service)[2]
            == "Credentials  : token issued (enrolled)"@ <==> enrolled,
        status_lines(running, server, enrolled, service)[3]
            == "Service      : running (TunnelAgent)"@ <==> service,
        state_name(true) == "在线"@,
{
    lemma_number_shows("Agent process: RUNNING (PID "@, pid as nat, other as nat, ")"@);
    reveal_strlit("Credentials  : token issued (enrolled)");
    reveal_strlit("Credentials  : pending enrollment");
    reveal_strlit("Service      : running (TunnelAgent)");
    reveal_strlit("Service      : not running");
    assert("Credentials  : token issued (enrolled)"@.len()
        != "Credentials  : pending enrollment"@.len());
    assert("Service      : running (TunnelAgent)"@.len() != "Service      : not running"@.len());
}

/// A time that cannot be shown is told in seconds, any other as it is shown.
pub proof fn unshown_time_is_told_in_seconds(secs: u64, other: u64, text: Seq<char>)
    ensures
        time_text(secs, Some(text)) == text,
        time_text(secs, None) == time_text(other, None) <==> secs == other,
{
    let none = Seq::<char>::empty();
    lemma_number_shows(none, secs as nat, other as nat, " (Unix)"@);
    assert(none + dec(secs as nat) =~= dec(secs as nat));
    assert(none + dec(other as nat) =~= dec(other as nat));
}

} // verus!
