//! Agent settings: server-wide defaults, per-device overrides, validation, and
//! how both are stored.

use vstd::prelude::*;

use crate::key_values::{last_value, pair_views, Pair};
use crate::number::{
    dec, decimal, number_round_trip, parse_u16, parse_u64, unsigned_value,
};
use crate::protocol::AgentSettings;
use crate::text::{has_prefix, same_text, starts_with};

verus! {

/// Server-wide agent defaults. Per-device overrides layer on top.
#[derive(Debug, Clone, PartialEq, Eq)]
pub struct AgentDefaults {
    pub server_url: String,
    pub data_channels: u16,
    pub heartbeat_secs: u64,
    pub pong_timeout_secs: u64,
    pub reconnect_min_secs: u64,
    pub reconnect_max_secs: u64,
    pub log_level: String,
}

/// Per-device overrides; `None` means that the server-wide default holds.
#[derive(Debug, Clone, PartialEq, Eq)]
pub struct DeviceOverrides {
    pub server_url: Option<String>,
    pub data_channels: Option<u16>,
    pub heartbeat_secs: Option<u64>,
    pub pong_timeout_secs: Option<u64>,
    pub reconnect_min_secs: Option<u64>,
    pub reconnect_max_secs: Option<u64>,
    pub log_level: Option<String>,
}

/// A row of stored overrides. The database has signed columns.
#[derive(Debug, Clone, PartialEq, Eq)]
pub struct OverrideRow {
    pub server_url: Option<String>,
    pub data_channels: Option<i16>,
    pub heartbeat_secs: Option<i64>,
    pub pong_timeout_secs: Option<i64>,
    pub reconnect_min_secs: Option<i64>,
    pub reconnect_max_secs: Option<i64>,
    pub log_level: Option<String>,
}

/// Whether a text names a log level.
pub open spec fn log_level_name(s: Seq<char>) -> bool {
    s == "error"@ || s == "warn"@ || s == "info"@ || s == "debug"@ || s == "trace"@
}

/// Whether a text names a log level.
pub fn is_log_level(s: &str) -> (r: bool)
    ensures
        r == log_level_name(s@),
{
    same_text(s, "error") || same_text(s, "warn") || same_text(s, "info") || same_text(s, "debug")
        || same_text(s, "trace")
}

/// Whether a text begins like a WebSocket address.
pub open spec fn websocket_url(s: Seq<char>) -> bool {
    has_prefix(s, "ws://"@) || has_prefix(s, "wss://"@)
}

/// Whether a server address is a WebSocket address.
pub fn validate_server_url(url: &str) -> (r: bool)
    ensures
        r == websocket_url(url@),
{
    starts_with(url, "ws://") || starts_with(url, "wss://")
}

/// The values of agent settings, without the device name.
#[verifier::ext_equal]
pub struct SettingsView {
    pub server_url: Seq<char>,
    pub data_channels: u16,
    pub heartbeat_secs: u64,
    pub pong_timeout_secs: u64,
    pub reconnect_min_secs: u64,
    pub reconnect_max_secs: u64,
    pub log_level: Seq<char>,
}

impl View for AgentDefaults {
    type V = SettingsView;

    open spec fn view(&self) -> SettingsView {
        SettingsView {
            server_url: self.server_url@,
            data_channels: self.data_channels,
            heartbeat_secs: self.heartbeat_secs,
            pong_timeout_secs: self.pong_timeout_secs,
            reconnect_min_secs: self.reconnect_min_secs,
            reconnect_max_secs: self.reconnect_max_secs,
            log_level: self.log_level@,
        }
    }
}

/// The values of settings that are sent to an agent.
pub open spec fn settings_view(s: AgentSettings) -> SettingsView {
    SettingsView {
        server_url: s.server_url@,
        data_channels: s.data_channels,
        heartbeat_secs: s.heartbeat_secs,
        pong_timeout_secs: s.pong_timeout_secs,
        reconnect_min_secs: s.reconnect_min_secs,
        reconnect_max_secs: s.reconnect_max_secs,
        log_level: s.log_level@,
    }
}

/// The defaults that hold where nothing is stored.
pub open spec fn built_in() -> SettingsView {
    SettingsView {
        server_url: Seq::empty(),
        data_channels: 2,
        heartbeat_secs: 10,
        pong_timeout_secs: 25,
        reconnect_min_secs: 1,
        reconnect_max_secs: 10,
        log_level: "info"@,
    }
}

/// The first thing wrong with settings, if anything is.
pub open spec fn settings_error(d: SettingsView, max_channels: u16) -> Option<Seq<char>> {
    if !(1 <= d.data_channels <= 8) {
        Some("data_channels must be between 1 and 8"@)
    } else if d.data_channels > max_channels {
        Some("data_channels must not exceed the server cap "@ + dec(max_channels as nat))
    } else if !(3 <= d.heartbeat_secs <= 60) {
        Some("heartbeat_secs must be between 3 and 60"@)
    } else if !(5 <= d.pong_timeout_secs <= 300) {
        Some("pong_timeout_secs must be between 5 and 300"@)
    } else if !(1 <= d.reconnect_min_secs <= 60) {
        Some("reconnect_min_secs must be between 1 and 60"@)
    } else if !(1 <= d.reconnect_max_secs <= 300) {
        Some("reconnect_max_secs must be between 1 and 300"@)
    } else if d.reconnect_max_secs < d.reconnect_min_secs {
        Some("reconnect_max_secs must be >= reconnect_min_secs"@)
    } else if !log_level_name(d.log_level) {
        Some("log_level must be one of error/warn/info/debug/trace"@)
    } else if d.server_url.len() > 0 && !websocket_url(d.server_url) {
        Some("server_url must start with ws:// or wss://"@)
    } else {
        None
    }
}

/// Whether a text is empty.
fn is_empty(s: &str) -> (r: bool)
    ensures
        r == (s@.len() == 0),
{
    proof {
        reveal_strlit("");
        if s@.len() == 0 {
            assert(s@ =~= ""@);
        }
    }
    same_text(s, "")
}

impl Default for AgentDefaults {
    fn default() -> (r: Self)
        ensures
            r@ == built_in(),
    {
        AgentDefaults {
            server_url: String::new(),
            data_channels: 2,
            heartbeat_secs: 10,
            pong_timeout_secs: 25,
            reconnect_min_secs: 1,
            reconnect_max_secs: 10,
            log_level: "info".to_owned(),
        }
    }
}

impl AgentDefaults {
    /// Validates ranges and shape. `max_channels` is the server's own cap, so
    /// that an agent never opens more channels than the server accepts.
    pub fn validate(&self, max_channels: u16) -> (r: Result<(), String>)
        ensures
            match r {
                Ok(()) => settings_error(self@, max_channels) is None,
                Err(text) => settings_error(self@, max_channels) == Some(text@),
            },
    {
        if !(1 <= self.data_channels && self.data_channels <= 8) {
            return Err("data_channels must be between 1 and 8".to_owned());
        }
        if self.data_channels > max_channels {
            let mut text = "data_channels must not exceed the server cap ".to_owned();
            text.append(decimal(max_channels as u128).as_str());
            return Err(text);
        }
        if !(3 <= self.heartbeat_secs && self.heartbeat_secs <= 60) {
            return Err("heartbeat_secs must be between 3 and 60".to_owned());
        }
        if !(5 <= self.pong_timeout_secs && self.pong_timeout_secs <= 300) {
            return Err("pong_timeout_secs must be between 5 and 300".to_owned());
        }
        if !(1 <= self.reconnect_min_secs && self.reconnect_min_secs <= 60) {
            return Err("reconnect_min_secs must be between 1 and 60".to_owned());
        }
        if !(1 <= self.reconnect_max_secs && self.reconnect_max_secs <= 300) {
            return Err("reconnect_max_secs must be between 1 and 300".to_owned());
        }
        if self.reconnect_max_secs < self.reconnect_min_secs {
            return Err("reconnect_max_secs must be >= reconnect_min_secs".to_owned());
        }
        if !is_log_level(self.log_level.as_str()) {
            return Err("log_level must be one of error/warn/info/debug/trace".to_owned());
        }
        if !is_empty(self.server_url.as_str()) && !validate_server_url(self.server_url.as_str()) {
            return Err("server_url must start with ws:// or wss://".to_owned());
        }
        Ok(())
    }

    /// The settings of a device that has these values.
    pub fn to_agent_settings(&self, device_name: String) -> (r: AgentSettings)
        ensures
            r.device_name == device_name,
            settings_view(r) == self@,
    {
        AgentSettings {
            device_name,
            server_url: self.server_url.clone(),
            data_channels: self.data_channels,
            heartbeat_secs: self.heartbeat_secs,
            pong_timeout_secs: self.pong_timeout_secs,
            reconnect_min_secs: self.reconnect_min_secs,
            reconnect_max_secs: self.reconnect_max_secs,
            log_level: self.log_level.clone(),
        }
    }
}

/// A value, or another where there is none.
pub open spec fn given<T>(value: Option<T>, otherwise: T) -> T {
    match value {
        Some(v) => v,
        None => otherwise,
    }
}

/// A text, or another where there is none.
pub open spec fn given_text(value: Option<String>, otherwise: Seq<char>) -> Seq<char> {
    match value {
        Some(v) => v@,
        None => otherwise,
    }
}

/// Overrides on top of defaults, field by field.
pub open spec fn overlay(o: DeviceOverrides, d: SettingsView) -> SettingsView {
    SettingsView {
        server_url: given_text(o.server_url, d.server_url),
        data_channels: given(o.data_channels, d.data_channels),
        heartbeat_secs: given(o.heartbeat_secs, d.heartbeat_secs),
        pong_timeout_secs: given(o.pong_timeout_secs, d.pong_timeout_secs),
        reconnect_min_secs: given(o.reconnect_min_secs, d.reconnect_min_secs),
        reconnect_max_secs: given(o.reconnect_max_secs, d.reconnect_max_secs),
        log_level: given_text(o.log_level, d.log_level),
    }
}

fn text_or(value: &Option<String>, otherwise: &String) -> (r: String)
    ensures
        r@ == given_text(*value, otherwise@),
{
    match value {
        Some(v) => v.clone(),
        None => otherwise.clone(),
    }
}

fn u64_or(value: Option<u64>, otherwise: u64) -> (r: u64)
    ensures
        r == given(value, otherwise),
{
    match value {
        Some(v) => v,
        None => otherwise,
    }
}

/// Whether a number is given and lies outside a range.
pub open spec fn outside(value: Option<u64>, low: u64, high: u64) -> bool {
    value matches Some(n) && !(low <= n <= high)
}

/// Whether a number is given and lies outside a range.
fn is_outside(value: Option<u64>, low: u64, high: u64) -> (r: bool)
    ensures
        r == outside(value, low, high),
{
    match value {
        Some(n) => !(low <= n && n <= high),
        None => false,
    }
}

/// The first thing wrong with the overrides that are given, if anything is.
/// The two reconnect bounds are compared only where both are given.
pub open spec fn overrides_error(o: DeviceOverrides, max_channels: u16) -> Option<Seq<char>> {
    if o.data_channels matches Some(n) && !(1 <= n <= 8) {
        Some("data_channels must be between 1 and 8"@)
    } else if o.data_channels matches Some(n) && n > max_channels {
        Some("data_channels must not exceed the server cap "@ + dec(max_channels as nat))
    } else if outside(o.heartbeat_secs, 3, 60) {
        Some("heartbeat_secs must be between 3 and 60"@)
    } else if outside(o.pong_timeout_secs, 5, 300) {
        Some("pong_timeout_secs must be between 5 and 300"@)
    } else if outside(o.reconnect_min_secs, 1, 60) {
        Some("reconnect_min_secs must be between 1 and 60"@)
    } else if outside(o.reconnect_max_secs, 1, 300) {
        Some("reconnect_max_secs must be between 1 and 300"@)
    } else if o.reconnect_min_secs is Some && o.reconnect_max_secs is Some
        && o.reconnect_max_secs->0 < o.reconnect_min_secs->0 {
        Some("reconnect_max_secs must be >= reconnect_min_secs"@)
    } else if o.log_level matches Some(level) && !log_level_name(level@) {
        Some("log_level must be one of error/warn/info/debug/trace"@)
    } else if o.server_url matches Some(url) && url@.len() > 0 && !websocket_url(url@) {
        Some("server_url must start with ws:// or wss://"@)
    } else {
        None
    }
}

impl Default for DeviceOverrides {
    fn default() -> (r: Self)
        ensures
            r.server_url is None,
            r.data_channels is None,
            r.heartbeat_secs is None,
            r.pong_timeout_secs is None,
            r.reconnect_min_secs is None,
            r.reconnect_max_secs is None,
            r.log_level is None,
    {
        DeviceOverrides {
            server_url: None,
            data_channels: None,
            heartbeat_secs: None,
            pong_timeout_secs: None,
            reconnect_min_secs: None,
            reconnect_max_secs: None,
            log_level: None,
        }
    }
}

impl DeviceOverrides {
    /// These overrides on top of defaults.
    pub fn over(&self, defaults: &AgentDefaults) -> (r: AgentDefaults)
        ensures
            r@ == overlay(*self, defaults@),
    {
        AgentDefaults {
            server_url: text_or(&self.server_url, &defaults.server_url),
            data_channels: match self.data_channels {
                Some(v) => v,
                None => defaults.data_channels,
            },
            heartbeat_secs: u64_or(self.heartbeat_secs, defaults.heartbeat_secs),
            pong_timeout_secs: u64_or(self.pong_timeout_secs, defaults.pong_timeout_secs),
            reconnect_min_secs: u64_or(self.reconnect_min_secs, defaults.reconnect_min_secs),
            reconnect_max_secs: u64_or(self.reconnect_max_secs, defaults.reconnect_max_secs),
            log_level: text_or(&self.log_level, &defaults.log_level),
        }
    }

    /// Validates the fields that are given; a field that is not given is never
    /// wrong. `max_channels` is the server's own cap.
    pub fn validate(&self, max_channels: u16) -> (r: Result<(), String>)
        ensures
            match r {
                Ok(()) => overrides_error(*self, max_channels) is None,
                Err(text) => overrides_error(*self, max_channels) == Some(text@),
            },
    {
        match self.data_channels {
            Some(n) => {
                if !(1 <= n && n <= 8) {
                    return Err("data_channels must be between 1 and 8".to_owned());
                }
                if n > max_channels {
                    let mut text = "data_channels must not exceed the server cap ".to_owned();
                    text.append(decimal(max_channels as u128).as_str());
                    return Err(text);
                }
            },
            None => {},
        }
        if is_outside(self.heartbeat_secs, 3, 60) {
            return Err("heartbeat_secs must be between 3 and 60".to_owned());
        }
        if is_outside(self.pong_timeout_secs, 5, 300) {
            return Err("pong_timeout_secs must be between 5 and 300".to_owned());
        }
        if is_outside(self.reconnect_min_secs, 1, 60) {
            return Err("reconnect_min_secs must be between 1 and 60".to_owned());
        }
        if is_outside(self.reconnect_max_secs, 1, 300) {
            return Err("reconnect_max_secs must be between 1 and 300".to_owned());
        }
        match (self.reconnect_min_secs, self.reconnect_max_secs) {
            (Some(low), Some(high)) => {
                if high < low {
                    return Err("reconnect_max_secs must be >= reconnect_min_secs".to_owned());
                }
            },
            _ => {},
        }
        match &self.log_level {
            Some(level) => {
                if !is_log_level(level.as_str()) {
                    return Err("log_level must be one of error/warn/info/debug/trace".to_owned());
                }
            },
            None => {},
        }
        match &self.server_url {
            Some(url) => {
                if !is_empty(url.as_str()) && !validate_server_url(url.as_str()) {
                    return Err("server_url must start with ws:// or wss://".to_owned());
                }
            },
            None => {},
        }
        Ok(())
    }
}

/// A device's settings: the defaults, its overrides, and its name.
pub fn effective_settings(
    defaults: &AgentDefaults,
    overrides: &DeviceOverrides,
    device_name: String,
) -> (r: AgentSettings)
    ensures
        r.device_name == device_name,
        settings_view(r) == overlay(*overrides, defaults@),
{
    overrides.over(defaults).to_agent_settings(device_name)
}

/// The number that a setting's last row gives it, where that is in range.
pub open spec fn stored_number(
    rows: Seq<Pair>,
    key: Seq<char>,
    min: nat,
    max: nat,
    limit: nat,
) -> Option<nat> {
    match last_value(rows, key) {
        None => None,
        Some(v) => match unsigned_value(v, limit) {
            None => None,
            Some(n) => if min <= n <= max {
                Some(n)
            } else {
                None
            },
        },
    }
}

/// The defaults that stored rows stand for. A row that is missing, is no
/// number, or is out of range leaves the built-in default.
pub open spec fn stored_defaults(rows: Seq<Pair>) -> SettingsView {
    let d = built_in();
    SettingsView {
        server_url: given(last_value(rows, "agent.server_url"@), d.server_url),
        data_channels: given(
            stored_number(rows, "agent.data_channels"@, 1, 8, u16::MAX as nat),
            d.data_channels as nat,
        ) as u16,
        heartbeat_secs: given(
            stored_number(rows, "agent.heartbeat_secs"@, 3, 60, u64::MAX as nat),
            d.heartbeat_secs as nat,
        ) as u64,
        pong_timeout_secs: given(
            stored_number(rows, "agent.pong_timeout_secs"@, 5, 300, u64::MAX as nat),
            d.pong_timeout_secs as nat,
        ) as u64,
        reconnect_min_secs: given(
            stored_number(rows, "agent.reconnect_min_secs"@, 1, 60, u64::MAX as nat),
            d.reconnect_min_secs as nat,
        ) as u64,
        reconnect_max_secs: given(
            stored_number(rows, "agent.reconnect_max_secs"@, 1, 300, u64::MAX as nat),
            d.reconnect_max_secs as nat,
        ) as u64,
        log_level: match last_value(rows, "agent.log_level"@) {
            Some(v) => if log_level_name(v) {
                v
            } else {
                d.log_level
            },
            None => d.log_level,
        },
    }
}

/// The value of a key's last row.
fn find_row(rows: &Vec<(String, String)>, key: &str) -> (r: Option<String>)
    ensures
        match r {
            Some(v) => last_value(pair_views(rows@), key@) == Some(v@),
            None => last_value(pair_views(rows@), key@) is None,
        },
{
    let ghost all = pair_views(rows@);
    let mut i: usize = rows.len();
    assert(all.take(all.len() as int) =~= all);
    while i > 0
        invariant
            i <= rows@.len(),
            all == pair_views(rows@),
            last_value(all, key@) == last_value(all.take(i as int), key@),
        decreases i,
    {
        i -= 1;
        proof {
            assert(all.take(i + 1).drop_last() =~= all.take(i as int));
            assert(all.take(i + 1).last() == (rows@[i as int].0@, rows@[i as int].1@));
        }
        if same_text(rows[i].0.as_str(), key) {
            return Some(rows[i].1.clone());
        }
    }
    None
}

/// The number of a key's last row, where it is in range.
fn find_number(rows: &Vec<(String, String)>, key: &str, min: u64, max: u64) -> (r: Option<u64>)
    ensures
        match r {
            Some(n) => stored_number(
                pair_views(rows@),
                key@,
                min as nat,
                max as nat,
                u64::MAX as nat,
            ) == Some(n as nat),
            None => stored_number(
                pair_views(rows@),
                key@,
                min as nat,
                max as nat,
                u64::MAX as nat,
            ) is None,
        },
{
    match find_row(rows, key) {
        None => None,
        Some(v) => match parse_u64(v.as_str()) {
            None => None,
            Some(n) => {
                if min <= n && n <= max {
                    Some(n)
                } else {
                    None
                }
            },
        },
    }
}

/// Reads the defaults out of stored rows.
pub fn load_agent_defaults(rows: &Vec<(String, String)>) -> (r: AgentDefaults)
    ensures
        r@ == stored_defaults(pair_views(rows@)),
{
    let d = AgentDefaults::default();
    let data_channels: u16 = match find_row(rows, "agent.data_channels") {
        None => d.data_channels,
        Some(v) => match parse_u16(v.as_str()) {
            None => d.data_channels,
            Some(n) => {
                if 1 <= n && n <= 8 {
                    n
                } else {
                    d.data_channels
                }
            },
        },
    };
    let log_level = match find_row(rows, "agent.log_level") {
        None => d.log_level,
        Some(v) => {
            if is_log_level(v.as_str()) {
                v
            } else {
                d.log_level
            }
        },
    };
    let server_url = match find_row(rows, "agent.server_url") {
        None => d.server_url,
        Some(v) => v,
    };
    AgentDefaults {
        server_url,
        data_channels,
        heartbeat_secs: u64_or(
            find_number(rows, "agent.heartbeat_secs", 3, 60),
            d.heartbeat_secs,
        ),
        pong_timeout_secs: u64_or(
            find_number(rows, "agent.pong_timeout_secs", 5, 300),
            d.pong_timeout_secs,
        ),
        reconnect_min_secs: u64_or(
            find_number(rows, "agent.reconnect_min_secs", 1, 60),
            d.reconnect_min_secs,
        ),
        reconnect_max_secs: u64_or(
            find_number(rows, "agent.reconnect_max_secs", 1, 300),
            d.reconnect_max_secs,
        ),
        log_level,
    }
}

/// The rows that defaults are stored in.
pub open spec fn default_rows(d: SettingsView) -> Seq<Pair> {
    seq![
        ("agent.server_url"@, d.server_url),
        ("agent.data_channels"@, dec(d.data_channels as nat)),
        ("agent.heartbeat_secs"@, dec(d.heartbeat_secs as nat)),
        ("agent.pong_timeout_secs"@, dec(d.pong_timeout_secs as nat)),
        ("agent.reconnect_min_secs"@, dec(d.reconnect_min_secs as nat)),
        ("agent.reconnect_max_secs"@, dec(d.reconnect_max_secs as nat)),
        ("agent.log_level"@, d.log_level),
    ]
}

/// The rows to store defaults in.
pub fn agent_default_rows(values: &AgentDefaults) -> (r: Vec<(String, String)>)
    ensures
        pair_views(r@) == default_rows(values@),
{
    let mut out: Vec<(String, String)> = Vec::new();
    out.push(("agent.server_url".to_owned(), values.server_url.clone()));
    out.push(("agent.data_channels".to_owned(), decimal(values.data_channels as u128)));
    out.push(("agent.heartbeat_secs".to_owned(), decimal(values.heartbeat_secs as u128)));
    out.push(("agent.pong_timeout_secs".to_owned(), decimal(values.pong_timeout_secs as u128)));
    out.push(("agent.reconnect_min_secs".to_owned(), decimal(values.reconnect_min_secs as u128)));
    out.push(("agent.reconnect_max_secs".to_owned(), decimal(values.reconnect_max_secs as u128)));
    out.push(("agent.log_level".to_owned(), values.log_level.clone()));
    assert(pair_views(out@) =~= default_rows(values@));
    out
}

proof fn lemma_keys_distinct()
    ensures
        "agent.server_url"@ != "agent.data_channels"@,
        "agent.server_url"@ != "agent.heartbeat_secs"@,
        "agent.server_url"@ != "agent.pong_timeout_secs"@,
        "agent.server_url"@ != "agent.reconnect_min_secs"@,
        "agent.server_url"@ != "agent.reconnect_max_secs"@,
        "agent.server_url"@ != "agent.log_level"@,
        "agent.data_channels"@ != "agent.heartbeat_secs"@,
        "agent.data_channels"@ != "agent.pong_timeout_secs"@,
        "agent.data_channels"@ != "agent.reconnect_min_secs"@,
        "agent.data_channels"@ != "agent.reconnect_max_secs"@,
        "agent.data_channels"@ != "agent.log_level"@,
        "agent.heartbeat_secs"@ != "agent.pong_timeout_secs"@,
        "agent.heartbeat_secs"@ != "agent.reconnect_min_secs"@,
        "agent.heartbeat_secs"@ != "agent.reconnect_max_secs"@,
        "agent.heartbeat_secs"@ != "agent.log_level"@,
        "agent.pong_timeout_secs"@ != "agent.reconnect_min_secs"@,
        "agent.pong_timeout_secs"@ != "agent.reconnect_max_secs"@,
        "agent.pong_timeout_secs"@ != "agent.log_level"@,
        "agent.reconnect_min_secs"@ != "agent.reconnect_max_secs"@,
        "agent.reconnect_min_secs"@ != "agent.log_level"@,
        "agent.reconnect_max_secs"@ != "agent.log_level"@,
{
    reveal_strlit("agent.server_url");
    reveal_strlit("agent.data_channels");
    reveal_strlit("agent.heartbeat_secs");
    reveal_strlit("agent.pong_timeout_secs");
    reveal_strlit("agent.reconnect_min_secs");
    reveal_strlit("agent.reconnect_max_secs");
    reveal_strlit("agent.log_level");
    assert("agent.server_url"@[6] == 's');
    assert("agent.data_channels"@[6] == 'd');
    assert("agent.heartbeat_secs"@[6] == 'h');
    assert("agent.pong_timeout_secs"@[6] == 'p');
    assert("agent.reconnect_min_secs"@[6] == 'r');
    assert("agent.reconnect_max_secs"@[6] == 'r');
    assert("agent.log_level"@[6] == 'l');
    assert("agent.reconnect_min_secs"@[17] == 'i');
    assert("agent.reconnect_max_secs"@[17] == 'a');
}

/// The last row with a key is the one that the key finds.
pub proof fn lemma_last_value_at(rows: Seq<Pair>, i: int)
    requires
        0 <= i < rows.len(),
        forall|j: int| i < j < rows.len() ==> (#[trigger] rows[j]).0 != rows[i].0,
    ensures
        last_value(rows, rows[i].0) == Some(rows[i].1),
    decreases rows.len(),
{
    if i < rows.len() - 1 {
        assert(rows[rows.len() - 1].0 != rows[i].0);
        let rest = rows.drop_last();
        assert forall|j: int| i < j < rest.len() implies (#[trigger] rest[j]).0 != rest[i].0 by {
            assert(rows[j].0 != rows[i].0);
        }
        lemma_last_value_at(rest, i);
    }
}

/// Defaults that pass validation come back from the rows they are stored in.
pub proof fn stored_defaults_round_trip(d: SettingsView, max_channels: u16)
    requires
        settings_error(d, max_channels) is None,
    ensures
        stored_defaults(default_rows(d)) == d,
{
    let rows = default_rows(d);
    lemma_keys_distinct();
    lemma_last_value_at(rows, 0);
    lemma_last_value_at(rows, 1);
    lemma_last_value_at(rows, 2);
    lemma_last_value_at(rows, 3);
    lemma_last_value_at(rows, 4);
    lemma_last_value_at(rows, 5);
    lemma_last_value_at(rows, 6);
    number_round_trip(d.data_channels as nat, u16::MAX as nat);
    number_round_trip(d.heartbeat_secs as nat, u64::MAX as nat);
    number_round_trip(d.pong_timeout_secs as nat, u64::MAX as nat);
    number_round_trip(d.reconnect_min_secs as nat, u64::MAX as nat);
    number_round_trip(d.reconnect_max_secs as nat, u64::MAX as nat);
}

/// What is read from stored rows passes validation, whatever the rows hold,
/// but for the two values that are not checked one by one: the server address,
/// and the order of the two reconnect bounds.
pub proof fn stored_defaults_in_range(rows: Seq<Pair>, max_channels: u16)
    requires
        max_channels >= 8,
        stored_defaults(rows).reconnect_min_secs <= stored_defaults(rows).reconnect_max_secs,
        stored_defaults(rows).server_url.len() == 0 || websocket_url(
            stored_defaults(rows).server_url,
        ),
    ensures
        settings_error(stored_defaults(rows), max_channels) is None,
{
}

/// A device without overrides has the server-wide defaults.
pub proof fn no_overrides_keep_defaults(o: DeviceOverrides, d: SettingsView)
    requires
        o.server_url is None,
        o.data_channels is None,
        o.heartbeat_secs is None,
        o.pong_timeout_secs is None,
        o.reconnect_min_secs is None,
        o.reconnect_max_secs is None,
        o.log_level is None,
    ensures
        overlay(o, d) == d,
{
}

/// Overrides that give every field leave nothing of the defaults.
pub proof fn full_overrides_replace_defaults(o: DeviceOverrides, d: SettingsView, e: SettingsView)
    requires
        o.server_url is Some,
        o.data_channels is Some,
        o.heartbeat_secs is Some,
        o.pong_timeout_secs is Some,
        o.reconnect_min_secs is Some,
        o.reconnect_max_secs is Some,
        o.log_level is Some,
    ensures
        overlay(o, d) == overlay(o, e),
{
}

/// Whether overrides give some of the fields that others give, with the same
/// values, and no more.
pub open spec fn fewer_overrides(p: DeviceOverrides, o: DeviceOverrides) -> bool {
    &&& p.server_url is None || p.server_url == o.server_url
    &&& p.data_channels is None || p.data_channels == o.data_channels
    &&& p.heartbeat_secs is None || p.heartbeat_secs == o.heartbeat_secs
    &&& p.pong_timeout_secs is None || p.pong_timeout_secs == o.pong_timeout_secs
    &&& p.reconnect_min_secs is None || p.reconnect_min_secs == o.reconnect_min_secs
    &&& p.reconnect_max_secs is None || p.reconnect_max_secs == o.reconnect_max_secs
    &&& p.log_level is None || p.log_level == o.log_level
}

/// Leaving fields out of accepted overrides leaves them accepted: a field that
/// is not given is never wrong.
pub proof fn fewer_overrides_accepted(p: DeviceOverrides, o: DeviceOverrides, max_channels: u16)
    requires
        overrides_error(o, max_channels) is None,
        fewer_overrides(p, o),
    ensures
        overrides_error(p, max_channels) is None,
{
}

/// Overrides that give every field are judged as server-wide defaults with the
/// same values are.
pub proof fn full_overrides_checked_like_defaults(
    o: DeviceOverrides,
    d: SettingsView,
    max_channels: u16,
)
    requires
        o.server_url is Some,
        o.data_channels is Some,
        o.heartbeat_secs is Some,
        o.pong_timeout_secs is Some,
        o.reconnect_min_secs is Some,
        o.reconnect_max_secs is Some,
        o.log_level is Some,
    ensures
        overrides_error(o, max_channels) == settings_error(overlay(o, d), max_channels),
{
}

/// Settings whose upper reconnect bound is raised to the lower one where it
/// lies below it.
pub open spec fn in_order(d: SettingsView) -> SettingsView {
    if d.reconnect_max_secs < d.reconnect_min_secs {
        SettingsView { reconnect_max_secs: d.reconnect_min_secs, ..d }
    } else {
        d
    }
}

/// Whether settings pass validation once the reconnect bounds are in order.
pub open spec fn values_in_range(d: SettingsView, max_channels: u16) -> bool {
    d.reconnect_max_secs >= 1 && settings_error(in_order(d), max_channels) is None
}

/// Accepted overrides on top of accepted defaults give settings whose values
/// are in range. Only the reconnect bounds may be out of order, where each
/// comes from another side.
pub proof fn accepted_overrides_in_range(o: DeviceOverrides, d: SettingsView, max_channels: u16)
    requires
        settings_error(d, max_channels) is None,
        overrides_error(o, max_channels) is None,
    ensures
        values_in_range(overlay(o, d), max_channels),
        (o.reconnect_min_secs is None) == (o.reconnect_max_secs is None) ==> settings_error(
            overlay(o, d),
            max_channels,
        ) is None,
{
}

/// A 16-bit number of a signed column, without its sign.
pub open spec fn unsigned_16(v: i16) -> u16 {
    if v >= 0 {
        v as u16
    } else {
        (v + 65_536) as u16
    }
}

/// A 16-bit number as a signed column holds it.
pub open spec fn signed_16(v: u16) -> i16 {
    if v <= i16::MAX {
        v as i16
    } else {
        (v - 65_536) as i16
    }
}

/// A 64-bit number of a signed column, without its sign.
pub open spec fn unsigned_64(v: i64) -> u64 {
    if v >= 0 {
        v as u64
    } else {
        (v + 18_446_744_073_709_551_616) as u64
    }
}

/// A 64-bit number as a signed column holds it.
pub open spec fn signed_64(v: u64) -> i64 {
    if v <= i64::MAX {
        v as i64
    } else {
        (v - 18_446_744_073_709_551_616) as i64
    }
}

/// A number where there is one.
pub open spec fn mapped<S, T>(v: Option<S>, f: spec_fn(S) -> T) -> Option<T> {
    match v {
        Some(x) => Some(f(x)),
        None => None,
    }
}

/// The overrides that a stored row stands for.
pub open spec fn overrides_of(row: OverrideRow) -> DeviceOverrides {
    DeviceOverrides {
        server_url: row.server_url,
        data_channels: mapped(row.data_channels, |v: i16| unsigned_16(v)),
        heartbeat_secs: mapped(row.heartbeat_secs, |v: i64| unsigned_64(v)),
        pong_timeout_secs: mapped(row.pong_timeout_secs, |v: i64| unsigned_64(v)),
        reconnect_min_secs: mapped(row.reconnect_min_secs, |v: i64| unsigned_64(v)),
        reconnect_max_secs: mapped(row.reconnect_max_secs, |v: i64| unsigned_64(v)),
        log_level: row.log_level,
    }
}

/// The row that overrides are stored in.
pub open spec fn row_of(o: DeviceOverrides) -> OverrideRow {
    OverrideRow {
        server_url: o.server_url,
        data_channels: mapped(o.data_channels, |v: u16| signed_16(v)),
        heartbeat_secs: mapped(o.heartbeat_secs, |v: u64| signed_64(v)),
        pong_timeout_secs: mapped(o.pong_timeout_secs, |v: u64| signed_64(v)),
        reconnect_min_secs: mapped(o.reconnect_min_secs, |v: u64| signed_64(v)),
        reconnect_max_secs: mapped(o.reconnect_max_secs, |v: u64| signed_64(v)),
        log_level: o.log_level,
    }
}

fn to_unsigned_64(v: Option<i64>) -> (r: Option<u64>)
    ensures
        r == mapped(v, |x: i64| unsigned_64(x)),
{
    match v {
        Some(x) => {
            if x >= 0 {
                Some(x as u64)
            } else {
                Some((x as i128 + 18_446_744_073_709_551_616) as u64)
            }
        },
        None => None,
    }
}

fn to_signed_64(v: Option<u64>) -> (r: Option<i64>)
    ensures
        r == mapped(v, |x: u64| signed_64(x)),
{
    match v {
        Some(x) => {
            if x <= 9_223_372_036_854_775_807 {
                Some(x as i64)
            } else {
                Some((x as i128 - 18_446_744_073_709_551_616) as i64)
            }
        },
        None => None,
    }
}

/// Reads a device's overrides from their row. A device without a row has none.
pub fn load_device_overrides(row: Option<OverrideRow>) -> (r: DeviceOverrides)
    ensures
        match row {
            Some(row) => r == overrides_of(row),
            None => r.server_url is None && r.data_channels is None && r.heartbeat_secs is None
                && r.pong_timeout_secs is None && r.reconnect_min_secs is None
                && r.reconnect_max_secs is None && r.log_level is None,
        },
{
    match row {
        Some(row) => {
            let data_channels = match row.data_channels {
                Some(x) => {
                    if x >= 0 {
                        Some(x as u16)
                    } else {
                        Some((x as i32 + 65_536) as u16)
                    }
                },
                None => None,
            };
            DeviceOverrides {
                server_url: row.server_url,
                data_channels,
                heartbeat_secs: to_unsigned_64(row.heartbeat_secs),
                pong_timeout_secs: to_unsigned_64(row.pong_timeout_secs),
                reconnect_min_secs: to_unsigned_64(row.reconnect_min_secs),
                reconnect_max_secs: to_unsigned_64(row.reconnect_max_secs),
                log_level: row.log_level,
            }
        },
        None => DeviceOverrides::default(),
    }
}

/// The row to store a device's overrides in.
pub fn device_override_row(overrides: DeviceOverrides) -> (r: OverrideRow)
    ensures
        r == row_of(overrides),
{
    let data_channels = match overrides.data_channels {
        Some(x) => {
            if x <= 32_767 {
                Some(x as i16)
            } else {
                Some((x as i32 - 65_536) as i16)
            }
        },
        None => None,
    };
    OverrideRow {
        server_url: overrides.server_url,
        data_channels,
        heartbeat_secs: to_signed_64(overrides.heartbeat_secs),
        pong_timeout_secs: to_signed_64(overrides.pong_timeout_secs),
        reconnect_min_secs: to_signed_64(overrides.reconnect_min_secs),
        reconnect_max_secs: to_signed_64(overrides.reconnect_max_secs),
        log_level: overrides.log_level,
    }
}

/// Overrides come back from the row they are stored in.
pub proof fn override_row_round_trip(o: DeviceOverrides)
    ensures
        overrides_of(row_of(o)) == o,
{
}

/// Settings that pass validation never have an agent open more data channels
/// than the server accepts.
pub proof fn accepted_channels_within_cap(d: SettingsView, max_channels: u16)
    requires
        settings_error(d, max_channels) is None,
    ensures
        1 <= d.data_channels <= max_channels,
{
}

/// Settings pass validation exactly where each value is in its range, the
/// channels are within the server's cap, the reconnect bounds are in order, the
/// level is a level, and the address is empty or a WebSocket address.
pub proof fn accepted_settings(d: SettingsView, max_channels: u16)
    ensures
        settings_error(d, max_channels) is None <==> {
            &&& 1 <= d.data_channels <= 8 && d.data_channels <= max_channels
            &&& 3 <= d.heartbeat_secs <= 60
            &&& 5 <= d.pong_timeout_secs <= 300
            &&& 1 <= d.reconnect_min_secs <= d.reconnect_max_secs <= 300
            &&& d.reconnect_min_secs <= 60
            &&& log_level_name(d.log_level)
            &&& d.server_url.len() == 0 || d.server_url.take(5) == "ws://"@ && d.server_url.len()
                >= 5 || d.server_url.take(6) == "wss://"@ && d.server_url.len() >= 6
        },
{
    reveal_strlit("ws://");
    reveal_strlit("wss://");
}

/// An override that is given is what the device gets, whatever the default; one
/// that is not given leaves the default. Each concerns its own setting alone.
pub proof fn override_wins(o: DeviceOverrides, d: SettingsView)
    ensures
        o.server_url matches Some(x) ==> overlay(o, d).server_url == x@,
        o.server_url is None ==> overlay(o, d).server_url == d.server_url,
        o.data_channels matches Some(x) ==> overlay(o, d).data_channels == x,
        o.data_channels is None ==> overlay(o, d).data_channels == d.data_channels,
        o.heartbeat_secs matches Some(x) ==> overlay(o, d).heartbeat_secs == x,
        o.heartbeat_secs is None ==> overlay(o, d).heartbeat_secs == d.heartbeat_secs,
        o.pong_timeout_secs matches Some(x) ==> overlay(o, d).pong_timeout_secs == x,
        o.pong_timeout_secs is None ==> overlay(o, d).pong_timeout_secs == d.pong_timeout_secs,
        o.reconnect_min_secs matches Some(x) ==> overlay(o, d).reconnect_min_secs == x,
        o.reconnect_min_secs is None ==> overlay(o, d).reconnect_min_secs == d.reconnect_min_secs,
        o.reconnect_max_secs matches Some(x) ==> overlay(o, d).reconnect_max_secs == x,
        o.reconnect_max_secs is None ==> overlay(o, d).reconnect_max_secs == d.reconnect_max_secs,
        o.log_level matches Some(x) ==> overlay(o, d).log_level == x@,
        o.log_level is None ==> overlay(o, d).log_level == d.log_level,
{
}

/// Where nothing is stored, the defaults are two channels, a heartbeat every
/// ten seconds, a timeout of twenty-five, reconnecting after one to ten, the
/// usual level and no address. They pass validation.
pub proof fn nothing_stored_is_built_in(rows: Seq<Pair>, key: Seq<char>, value: Seq<char>)
    requires
        rows == seq![(key, value)],
        key != "agent.server_url"@,
        key != "agent.data_channels"@,
        key != "agent.heartbeat_secs"@,
        key != "agent.pong_timeout_secs"@,
        key != "agent.reconnect_min_secs"@,
        key != "agent.reconnect_max_secs"@,
        key != "agent.log_level"@,
    ensures
        stored_defaults(Seq::empty()) == (SettingsView {
            server_url: Seq::empty(),
            data_channels: 2,
            heartbeat_secs: 10,
            pong_timeout_secs: 25,
            reconnect_min_secs: 1,
            reconnect_max_secs: 10,
            log_level: "info"@,
        }),
        stored_defaults(rows) == stored_defaults(Seq::empty()),
        settings_error(stored_defaults(Seq::empty()), 2) is None,
{
    assert(rows.last() == (key, value));
    assert(rows.drop_last() =~= Seq::<Pair>::empty());
    reveal_with_fuel(last_value, 3);
}

/// A stored value out of range, or that is no number, leaves the default, and
/// concerns no other setting.
pub proof fn bad_row_leaves_default(rows: Seq<Pair>, value: Seq<char>)
    requires
        unsigned_value(value, u64::MAX as nat) matches Some(n) ==> n < 3 || n > 60,
    ensures
        ({
            let w = stored_defaults(rows.push(("agent.heartbeat_secs"@, value)));
            &&& w.heartbeat_secs == 10
            &&& w.data_channels == stored_defaults(rows).data_channels
            &&& w.pong_timeout_secs == stored_defaults(rows).pong_timeout_secs
            &&& w.log_level == stored_defaults(rows).log_level
            &&& w.server_url == stored_defaults(rows).server_url
        }),
{
    lemma_keys_distinct();
    let w = rows.push(("agent.heartbeat_secs"@, value));
    assert(w.drop_last() =~= rows);
    let d = default_rows(built_in());
    assert(d[2].0 == "agent.heartbeat_secs"@);
    assert(d[0].0 == "agent.server_url"@);
    assert(d[1].0 == "agent.data_channels"@);
    assert(d[3].0 == "agent.pong_timeout_secs"@);
    assert(d[6].0 == "agent.log_level"@);
}

} // verus!
