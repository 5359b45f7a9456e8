//! The server's own parameters, read from its environment.

use vstd::prelude::*;

use crate::agent_config::text_view;
use crate::number::{
    dec, number_round_trip, parse_i64, parse_u16, parse_u64, signed_reads_sign, signed_value,
    unsigned_value,
};
use crate::text::{chars_of, trim, trimmed};
use crate::token::{hash_token, token_hash};

verus! {

/// What the environment says, variable by variable.
#[derive(Debug, PartialEq, Eq)]
pub struct ServerEnv {
    pub tunnel_port_start: Option<String>,
    pub tunnel_port_end: Option<String>,
    pub bandwidth_limit_mbps: Option<String>,
    pub udp_session_idle_secs: Option<String>,
    pub data_channels_max: Option<String>,
    pub shutdown_drain_secs: Option<String>,
    pub admin_token_ttl_hours: Option<String>,
    pub bootstrap_agent_token: Option<String>,
    pub management_port: Option<String>,
}

/// The server's parameters.
#[derive(Debug, PartialEq, Eq)]
pub struct ServerConfig {
    pub tunnel_port_start: u16,
    pub tunnel_port_end: u16,
    pub bandwidth_limit_mbps: u64,
    pub udp_session_idle_secs: u64,
    pub data_channels_max: u16,
    pub shutdown_drain_secs: u64,
    pub admin_token_ttl_hours: i64,
    pub bootstrap_agent_token_hash: Option<String>,
    pub management_port: u16,
}

/// Why the server does not start.
#[derive(Debug, Clone, Copy, PartialEq, Eq, Structural)]
pub enum ConfigError {
    /// The first tunnel port is no port.
    PortStart,
    /// The last tunnel port is no port.
    PortEnd,
    /// The first tunnel port is above the last.
    PortOrder,
    /// The management port is no port.
    ManagementPort,
}

/// A port of the environment, or a default where it is not set.
pub open spec fn port_of(value: Option<Seq<char>>, default: u16) -> Option<u16> {
    match value {
        None => Some(default),
        Some(s) => match unsigned_value(s, u16::MAX as nat) {
            Some(n) => Some(n as u16),
            None => None,
        },
    }
}

/// A number of the environment if it is one from `low` to `high`, else a
/// default.
pub open spec fn number_or(
    value: Option<Seq<char>>,
    max: nat,
    low: nat,
    high: nat,
    default: nat,
) -> nat {
    match value {
        None => default,
        Some(s) => match unsigned_value(s, max) {
            Some(n) => if low <= n <= high {
                n
            } else {
                default
            },
            None => default,
        },
    }
}

/// Why an environment is refused: the ports in turn.
pub open spec fn config_error(env: ServerEnv) -> Option<ConfigError> {
    let start = port_of(text_view(env.tunnel_port_start), 10000);
    let end = port_of(text_view(env.tunnel_port_end), 10100);
    let management = port_of(text_view(env.management_port), 18080);
    if start is None {
        Some(ConfigError::PortStart)
    } else if end is None {
        Some(ConfigError::PortEnd)
    } else if start->0 > end->0 {
        Some(ConfigError::PortOrder)
    } else if management is None {
        Some(ConfigError::ManagementPort)
    } else {
        None
    }
}

/// Whether parameters are those of an environment.
pub open spec fn configured(env: ServerEnv, c: ServerConfig) -> bool {
    &&& port_of(text_view(env.tunnel_port_start), 10000) == Some(c.tunnel_port_start)
    &&& port_of(text_view(env.tunnel_port_end), 10100) == Some(c.tunnel_port_end)
    &&& port_of(text_view(env.management_port), 18080) == Some(c.management_port)
    &&& c.bandwidth_limit_mbps == number_or(
        text_view(env.bandwidth_limit_mbps),
        u64::MAX as nat,
        0,
        u64::MAX as nat,
        0,
    )
    &&& c.udp_session_idle_secs == number_or(
        text_view(env.udp_session_idle_secs),
        u64::MAX as nat,
        30,
        u64::MAX as nat,
        120,
    )
    &&& c.data_channels_max == number_or(
        text_view(env.data_channels_max),
        u16::MAX as nat,
        1,
        16,
        4,
    )
    &&& c.shutdown_drain_secs == number_or(
        text_view(env.shutdown_drain_secs),
        u64::MAX as nat,
        0,
        300,
        10,
    )
    &&& c.admin_token_ttl_hours == ttl_hours(text_view(env.admin_token_ttl_hours))
    &&& text_view(c.bootstrap_agent_token_hash) == bootstrap_hash(
        text_view(env.bootstrap_agent_token),
    )
}

/// How long an administrator stays signed in: 30 days by default.
pub open spec fn ttl_hours(value: Option<Seq<char>>) -> int {
    match value {
        None => 720,
        Some(s) => match signed_value(s, i64::MIN as int, i64::MAX as int) {
            Some(n) => if n > 0 {
                n
            } else {
                720
            },
            None => 720,
        },
    }
}

/// The hash of the bootstrap token; a blank one counts as none.
pub open spec fn bootstrap_hash(value: Option<Seq<char>>) -> Option<Seq<char>> {
    match value {
        None => None,
        Some(s) => if trimmed(s).len() == 0 {
            None
        } else {
            Some(token_hash(s))
        },
    }
}

/// Reads a port, or takes the default where it is not set.
pub fn read_port(value: &Option<String>, default: u16) -> (r: Option<u16>)
    ensures
        r == port_of(text_view(*value), default),
{
    match value {
        None => Some(default),
        Some(s) => parse_u16(s.as_str()),
    }
}

fn read_number(value: &Option<String>, low: u64, high: u64, default: u64) -> (r: u64)
    ensures
        r == number_or(
            text_view(*value),
            u64::MAX as nat,
            low as nat,
            high as nat,
            default as nat,
        ),
{
    match value {
        None => default,
        Some(s) => match parse_u64(s.as_str()) {
            Some(n) => if low <= n && n <= high {
                n
            } else {
                default
            },
            None => default,
        },
    }
}

/// Reads the server's parameters.
pub fn read_config(env: &ServerEnv) -> (r: Result<ServerConfig, ConfigError>)
    ensures
        match r {
            Ok(c) => config_error(*env) is None && configured(*env, c),
            Err(e) => config_error(*env) == Some(e),
        },
{
    let tunnel_port_start: u16 = match read_port(&env.tunnel_port_start, 10000) {
        Some(port) => port,
        None => {
            return Err(ConfigError::PortStart);
        },
    };
    let tunnel_port_end: u16 = match read_port(&env.tunnel_port_end, 10100) {
        Some(port) => port,
        None => {
            return Err(ConfigError::PortEnd);
        },
    };
    if tunnel_port_start > tunnel_port_end {
        return Err(ConfigError::PortOrder);
    }
    let management_port: u16 = match read_port(&env.management_port, 18080) {
        Some(port) => port,
        None => {
            return Err(ConfigError::ManagementPort);
        },
    };
    let data_channels_max: u16 = match &env.data_channels_max {
        None => 4,
        Some(s) => match parse_u16(s.as_str()) {
            Some(n) => if 1 <= n && n <= 16 {
                n
            } else {
                4
            },
            None => 4,
        },
    };
    let admin_token_ttl_hours: i64 = match &env.admin_token_ttl_hours {
        None => 720,
        Some(s) => match parse_i64(s.as_str()) {
            Some(n) => if n > 0 {
                n
            } else {
                720
            },
            None => 720,
        },
    };
    let bootstrap_agent_token_hash = match &env.bootstrap_agent_token {
        None => None,
        Some(s) => {
            let inner = trim(s.as_str());
            let letters = chars_of(inner.as_str());
            if letters.len() == 0 {
                None
            } else {
                Some(hash_token(s.as_str()))
            }
        },
    };
    Ok(
        ServerConfig {
            tunnel_port_start,
            tunnel_port_end,
            bandwidth_limit_mbps: read_number(&env.bandwidth_limit_mbps, 0, u64::MAX, 0),
            udp_session_idle_secs: read_number(&env.udp_session_idle_secs, 30, u64::MAX, 120),
            data_channels_max,
            shutdown_drain_secs: read_number(&env.shutdown_drain_secs, 0, 300, 10),
            admin_token_ttl_hours,
            bootstrap_agent_token_hash,
            management_port,
        },
    )
}

/// The bandwidth cap in force: the stored one, where it is a number, else the
/// one in use.
pub fn effective_mbps(stored: Option<&str>, current: u64) -> (r: u64)
    ensures
        r == match stored {
            Some(s) => match unsigned_value(s@, u64::MAX as nat) {
                Some(n) => n,
                None => current as nat,
            },
            None => current as nat,
        },
        r == mbps_in_force(
            match stored {
                Some(s) => Some(s@),
                None => None,
            },
            current,
        ),
{
    match stored {
        Some(s) => match parse_u64(s) {
            Some(n) => n,
            None => current,
        },
        None => current,
    }
}

/// Parameters that are accepted are in range, whatever the environment says.
pub proof fn configured_in_range(env: ServerEnv, c: ServerConfig)
    requires
        config_error(env) is None,
        configured(env, c),
    ensures
        c.tunnel_port_start <= c.tunnel_port_end,
        c.udp_session_idle_secs >= 30,
        1 <= c.data_channels_max <= 16,
        c.shutdown_drain_secs <= 300,
        c.admin_token_ttl_hours > 0,
{
}

/// The bandwidth cap that holds: what is stored, or else what held before.
pub open spec fn mbps_in_force(stored: Option<Seq<char>>, current: u64) -> u64 {
    number_or(stored, u64::MAX as nat, 0, u64::MAX as nat, current as nat) as u64
}

/// A stored cap is in force once it is stored; where none is, or it is no
/// number, the one before stays.
pub proof fn stored_cap_is_in_force(mbps: u64, current: u64, text: Seq<char>)
    requires
        unsigned_value(text, u64::MAX as nat) is None,
    ensures
        mbps_in_force(Some(dec(mbps as nat)), current) == mbps,
        mbps_in_force(None, current) == current,
        mbps_in_force(Some(text), current) == current,
{
    number_round_trip(mbps as nat, u64::MAX as nat);
}

/// What the environment gives in range is what is configured, setting by
/// setting.
pub proof fn given_values_are_configured(
    env: ServerEnv,
    c: ServerConfig,
    start: u16,
    end: u16,
    management: u16,
    mbps: u64,
    idle: u64,
    channels: u16,
    drain: u64,
    ttl: i64,
)
    requires
        configured(env, c),
        idle >= 30,
        1 <= channels <= 16,
        drain <= 300,
        ttl > 0,
    ensures
        text_view(env.tunnel_port_start) == Some(dec(start as nat)) ==> c.tunnel_port_start
            == start,
        text_view(env.tunnel_port_end) == Some(dec(end as nat)) ==> c.tunnel_port_end == end,
        text_view(env.management_port) == Some(dec(management as nat)) ==> c.management_port
            == management,
        text_view(env.bandwidth_limit_mbps) == Some(dec(mbps as nat)) ==> c.bandwidth_limit_mbps
            == mbps,
        text_view(env.udp_session_idle_secs) == Some(dec(idle as nat))
            ==> c.udp_session_idle_secs == idle,
        text_view(env.data_channels_max) == Some(dec(channels as nat)) ==> c.data_channels_max
            == channels,
        text_view(env.shutdown_drain_secs) == Some(dec(drain as nat)) ==> c.shutdown_drain_secs
            == drain,
        text_view(env.admin_token_ttl_hours) == Some(dec(ttl as nat))
            ==> c.admin_token_ttl_hours == ttl,
{
    number_round_trip(start as nat, u16::MAX as nat);
    number_round_trip(end as nat, u16::MAX as nat);
    number_round_trip(management as nat, u16::MAX as nat);
    number_round_trip(mbps as nat, u64::MAX as nat);
    number_round_trip(idle as nat, u64::MAX as nat);
    number_round_trip(channels as nat, u16::MAX as nat);
    number_round_trip(drain as nat, u64::MAX as nat);
    signed_reads_sign(ttl as nat, i64::MIN as int, i64::MAX as int);
}

/// What the environment leaves out has its default: the tunnel ports from 10000
/// to 10100, no cap, two minutes of idleness, four channels, ten seconds to
/// drain, thirty days for a token, no bootstrap token, and the management port.
pub proof fn unset_values_have_defaults(env: ServerEnv, c: ServerConfig)
    requires
        configured(env, c),
    ensures
        env.tunnel_port_start is None ==> c.tunnel_port_start == 10000,
        env.tunnel_port_end is None ==> c.tunnel_port_end == 10100,
        env.management_port is None ==> c.management_port == 18080,
        env.bandwidth_limit_mbps is None ==> c.bandwidth_limit_mbps == 0,
        env.udp_session_idle_secs is None ==> c.udp_session_idle_secs == 120,
        env.data_channels_max is None ==> c.data_channels_max == 4,
        env.shutdown_drain_secs is None ==> c.shutdown_drain_secs == 10,
        env.admin_token_ttl_hours is None ==> c.admin_token_ttl_hours == 720,
        env.bootstrap_agent_token is None ==> c.bootstrap_agent_token_hash is None,
{
}

/// A number out of range, or a text that is none, counts as left out, except
/// for ports, where it is an error. A port that is given is never replaced.
pub proof fn unusable_values_count_as_unset(value: Seq<char>, default: u16, low: nat, high: nat)
    requires
        unsigned_value(value, u64::MAX as nat) matches Some(n) ==> n < low || n > high,
        unsigned_value(value, u16::MAX as nat) is None,
    ensures
        number_or(Some(value), u64::MAX as nat, low, high, default as nat) == default,
        port_of(Some(value), default) is None,
{
}

/// A configuration is refused exactly for a port that is none or for tunnel
/// ports out of order, and the refusal names the first of these.
pub proof fn config_refused_for_ports(env: ServerEnv)
    ensures
        ({
            let bad = |v: Option<String>| v is Some && unsigned_value(v->0@, 65535) is None;
            &&& bad(env.tunnel_port_start) <==> config_error(env) == Some(ConfigError::PortStart)
            &&& !bad(env.tunnel_port_start) && bad(env.tunnel_port_end) <==> config_error(env)
                == Some(ConfigError::PortEnd)
            &&& config_error(env) == Some(ConfigError::ManagementPort) ==> bad(env.management_port)
            &&& config_error(env) is None ==> !bad(env.management_port)
        }),
{
}

/// A bootstrap token counts exactly where it is not blank, and agents that show
/// that token are known by its hash.
pub proof fn bootstrap_token_unless_blank(token: Seq<char>)
    ensures
        trimmed(token).len() > 0 ==> bootstrap_hash(Some(token)) == Some(token_hash(token)),
        trimmed(token).len() == 0 ==> bootstrap_hash(Some(token)) is None,
{
}

/// Tunnel ports out of order are refused, also where one of them is the default:
/// a range may be a single port, but not less.
pub proof fn tunnel_ports_in_order(env: ServerEnv, start: u16, end: u16)
    requires
        env.management_port is None,
        env.tunnel_port_start matches Some(s) ==> s@ == dec(start as nat),
        env.tunnel_port_end matches Some(s) ==> s@ == dec(end as nat),
    ensures
        env.tunnel_port_start is Some && env.tunnel_port_end is Some ==> (config_error(env) is None
            <==> start <= end),
        env.tunnel_port_start is Some && env.tunnel_port_end is None ==> (config_error(env) is None
            <==> start <= 10100),
        env.tunnel_port_start is None && env.tunnel_port_end is Some ==> (config_error(env) is None
            <==> 10000 <= end),
        env.tunnel_port_start is None && env.tunnel_port_end is None ==> config_error(env) is None,
        config_error(env) is Some ==> config_error(env) == Some(ConfigError::PortOrder),
{
    number_round_trip(start as nat, u16::MAX as nat);
    number_round_trip(end as nat, u16::MAX as nat);
}

/// A token's hours that are none, or not positive, count as left out: a month.
pub proof fn unusable_hours_are_a_month(value: Seq<char>)
    requires
        signed_value(value, i64::MIN as int, i64::MAX as int) matches Some(n) ==> n <= 0,
    ensures
        ttl_hours(Some(value)) == 24 * 30,
        ttl_hours(None) == 24 * 30,
{
}

} // verus!
