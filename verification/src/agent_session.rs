//! The control session of an agent: what each message of the server asks for,
//! when the connection counts as dead, and how the session ends.

use std::collections::HashSet;
use vstd::prelude::*;

use crate::agent_streams::{
    expired, frame_views, opened, route_of, waited_frames, AgentRoute, StreamTable, TableView,
};
use crate::key_values::{last_value, pair_views, Pair};
use crate::number::{dec, decimal, parse_u128, unsigned_value};
use crate::plane_model::SECOND;
use crate::protocol::{AgentSettings, ControlMessage, TunnelKind, TunnelSpec};
use crate::text::same_text;

verus! {

broadcast use vstd::std_specs::hash::group_hash_axioms;

/// The state of a session.
#[verifier::ext_equal]
pub struct SessionView {
    pub table: TableView,
    pub specs: Seq<TunnelSpec>,
    pub channels: Set<u16>,
    pub opened: bool,
    pub wanted: u16,
    pub settings: AgentSettings,
    pub synced_at: Option<u64>,
    pub last_pong: u64,
    pub ping_sent: Option<u64>,
    pub rtt_ms: u32,
    pub restart: Option<String>,
}

/// What a message of the server asks for.
#[derive(Debug, PartialEq, Eq)]
pub enum Action {
    Nothing,
    /// The tunnels were replaced; open this many data channels.
    OpenChannels(u16),
    /// Apply a bandwidth cap.
    Bandwidth(u64),
    /// Store pushed settings, apply the log level, and reconnect if asked to.
    Settings { updates: Vec<(String, String)>, log_level: String, reconnect: bool },
    /// Store a new token and reconnect.
    Token { updates: Vec<(String, String)> },
    /// Open a stream, and give it the frames that waited for it first.
    Open { id: u128, spec: TunnelSpec, data_channel: u16, frames: Vec<Vec<u8>> },
    /// Tell the server that a stream cannot be opened.
    Refuse { stream_id: String, reason: String },
    /// Stop a stream.
    Close { id: u128, reason: String },
    /// Try the tunnel's local service, if the tunnel is known.
    Probe { probe_id: String, spec: Option<TunnelSpec> },
    /// Report progress, and restart.
    Restart { progress: ControlMessage },
}

/// How a session ended.
#[derive(Debug, PartialEq, Eq)]
pub enum RunOutcome {
    /// Connect again at once with fresh settings.
    ReconnectNow,
    /// The server asked for a restart of the process.
    Restarting { restart_id: String },
    /// The connection closed; wait before connecting again.
    Disconnected,
}

/// What a heartbeat is due to bring.
#[derive(Debug, Clone, Copy, PartialEq, Eq, Structural)]
pub enum Tick {
    /// The connection is dead.
    Timeout,
    /// Send a heartbeat with this latency, and a ping.
    Beat { latency_ms: u32 },
}

/// The tunnel of an id: of two with one id the later counts.
pub open spec fn spec_of(specs: Seq<TunnelSpec>, id: Seq<char>) -> Option<TunnelSpec>
    decreases specs.len(),
{
    if specs.len() == 0 {
        None
    } else if specs.last().id@ == id {
        Some(specs.last())
    } else {
        spec_of(specs.drop_last(), id)
    }
}

/// Whether pushed settings need a new session: the server has moved, or the
/// number of data channels has changed. An empty address means that none is
/// configured.
pub open spec fn reconnect_needed(current: AgentSettings, incoming: AgentSettings) -> bool {
    (incoming.server_url@.len() > 0 && incoming.server_url@ != current.server_url@)
        || incoming.data_channels != current.data_channels
}

/// Decides whether pushed settings need a new session.
pub fn settings_reconnect_decision(current: &AgentSettings, incoming: &AgentSettings) -> (r: bool)
    ensures
        r == reconnect_needed(*current, *incoming),
{
    proof {
        reveal_strlit("");
        if incoming.server_url@.len() == 0 {
            assert(incoming.server_url@ =~= ""@);
        }
    }
    let moved = !same_text(incoming.server_url.as_str(), "") && !same_text(
        incoming.server_url.as_str(),
        current.server_url.as_str(),
    );
    moved || incoming.data_channels != current.data_channels
}

/// What pushed settings change in the credentials file. An empty address keeps
/// the local one.
pub open spec fn settings_updates(s: AgentSettings, unix_secs: u64) -> Seq<Pair> {
    let address: Seq<Pair> = if s.server_url@.len() > 0 {
        seq![("SERVER_URL"@, s.server_url@)]
    } else {
        Seq::empty()
    };
    address + seq![
        ("DEVICE_NAME"@, s.device_name@),
        ("DATA_CHANNELS"@, dec(s.data_channels as nat)),
        ("HEARTBEAT_SECS"@, dec(s.heartbeat_secs as nat)),
        ("PONG_TIMEOUT_SECS"@, dec(s.pong_timeout_secs as nat)),
        ("RECONNECT_MIN_SECS"@, dec(s.reconnect_min_secs as nat)),
        ("RECONNECT_MAX_SECS"@, dec(s.reconnect_max_secs as nat)),
        ("LOG_LEVEL"@, s.log_level@),
        ("SETTINGS_SYNCED_AT"@, dec(unix_secs as nat)),
    ]
}

/// What pushed settings change in the credentials file.
pub fn updates_for_settings(s: &AgentSettings, unix_secs: u64) -> (r: Vec<(String, String)>)
    ensures
        pair_views(r@) == settings_updates(*s, unix_secs),
{
    let mut out: Vec<(String, String)> = Vec::new();
    proof {
        reveal_strlit("");
        if s.server_url@.len() == 0 {
            assert(s.server_url@ =~= ""@);
        }
    }
    if !same_text(s.server_url.as_str(), "") {
        out.push(("SERVER_URL".to_owned(), s.server_url.clone()));
    }
    out.push(("DEVICE_NAME".to_owned(), s.device_name.clone()));
    out.push(("DATA_CHANNELS".to_owned(), decimal(s.data_channels as u128)));
    out.push(("HEARTBEAT_SECS".to_owned(), decimal(s.heartbeat_secs as u128)));
    out.push(("PONG_TIMEOUT_SECS".to_owned(), decimal(s.pong_timeout_secs as u128)));
    out.push(("RECONNECT_MIN_SECS".to_owned(), decimal(s.reconnect_min_secs as u128)));
    out.push(("RECONNECT_MAX_SECS".to_owned(), decimal(s.reconnect_max_secs as u128)));
    out.push(("LOG_LEVEL".to_owned(), s.log_level.clone()));
    out.push(("SETTINGS_SYNCED_AT".to_owned(), decimal(unix_secs as u128)));
    assert(pair_views(out@) =~= settings_updates(*s, unix_secs));
    out
}

/// What a new token changes in the credentials file: the enrollment code is
/// used up.
pub open spec fn token_updates(token: Seq<char>) -> Seq<Pair> {
    seq![("TOKEN"@, token), ("ENROLL_CODE"@, ""@)]
}

/// What a new token changes in the credentials file.
pub fn updates_for_token(token: String) -> (r: Vec<(String, String)>)
    ensures
        pair_views(r@) == token_updates(token@),
{
    let ghost t = token@;
    let mut out: Vec<(String, String)> = Vec::new();
    out.push(("TOKEN".to_owned(), token));
    out.push(("ENROLL_CODE".to_owned(), "".to_owned()));
    assert(pair_views(out@) =~= token_updates(t));
    out
}

/// What a refused enrollment changes in the credentials file: the code is used
/// up, so that the next attempt shows a fresh one.
pub fn updates_for_refusal() -> (r: Vec<(String, String)>)
    ensures
        pair_views(r@) == seq![("ENROLL_CODE"@, ""@)],
{
    let mut out: Vec<(String, String)> = Vec::new();
    out.push(("ENROLL_CODE".to_owned(), "".to_owned()));
    assert(pair_views(out@) =~= seq![("ENROLL_CODE"@, ""@)]);
    out
}

/// What a message makes of a session.
pub open spec fn session_after(v: SessionView, m: ControlMessage, unix_secs: u64) -> SessionView {
    match m {
        ControlMessage::Registered { tunnels, .. } => synced(v, tunnels@),
        ControlMessage::SyncTunnels { tunnels } => synced(v, tunnels@),
        ControlMessage::SettingsSync { settings } => SessionView {
            settings,
            synced_at: Some(unix_secs),
            ..v
        },
        ControlMessage::StreamOpen { stream_id, tunnel_id, data_channel } => match unsigned_value(
            stream_id@,
            u128::MAX as nat,
        ) {
            Some(id) => match spec_of(v.specs, tunnel_id@) {
                Some(spec) => if v.channels.contains(data_channel) {
                    SessionView {
                        table: opened(v.table, id as u128, spec.kind == TunnelKind::Udp),
                        ..v
                    }
                } else {
                    v
                },
                None => v,
            },
            None => v,
        },
        ControlMessage::StreamClose { stream_id, .. } => match unsigned_value(
            stream_id@,
            u128::MAX as nat,
        ) {
            Some(id) => SessionView {
                table: TableView {
                    streams: v.table.streams.remove(id as u128),
                    pending: v.table.pending.remove(id as u128),
                },
                ..v
            },
            None => v,
        },
        ControlMessage::RestartAgent { restart_id, .. } => SessionView {
            restart: Some(restart_id),
            ..v
        },
        _ => v,
    }
}

/// A session with new tunnels. The first time, stale channels are forgotten.
pub open spec fn synced(v: SessionView, tunnels: Seq<TunnelSpec>) -> SessionView {
    SessionView {
        specs: tunnels,
        opened: true,
        channels: if v.opened {
            v.channels
        } else {
            Set::empty()
        },
        ..v
    }
}

/// Whether an action is what a message asks for in a session.
pub open spec fn action_for(v: SessionView, m: ControlMessage, unix_secs: u64, a: Action) -> bool {
    match m {
        ControlMessage::Registered { .. } => a == Action::OpenChannels(
            if v.opened {
                0
            } else {
                v.wanted
            },
        ),
        ControlMessage::SyncTunnels { .. } => a == Action::OpenChannels(
            if v.opened {
                0
            } else {
                v.wanted
            },
        ),
        ControlMessage::BandwidthConfig { mbps } => a == Action::Bandwidth(mbps),
        ControlMessage::SettingsSync { settings } => a matches Action::Settings {
            updates,
            log_level,
            reconnect,
        } && pair_views(updates@) == settings_updates(settings, unix_secs) && log_level
            == settings.log_level && reconnect == reconnect_needed(v.settings, settings),
        ControlMessage::TokenRotate { token } => a matches Action::Token { updates } && pair_views(
            updates@,
        ) == token_updates(token@),
        ControlMessage::StreamOpen { stream_id, tunnel_id, data_channel } => match unsigned_value(
            stream_id@,
            u128::MAX as nat,
        ) {
            None => a == Action::Nothing,
            Some(id) => match spec_of(v.specs, tunnel_id@) {
                None => a matches Action::Refuse { stream_id: s, reason } && s == stream_id
                    && reason@ == "unknown_tunnel"@,
                Some(spec) => if v.channels.contains(data_channel) {
                    a matches Action::Open { id: i, spec: s, data_channel: c, frames } && i == id
                        && s == spec && c == data_channel && frame_views(frames@) == waited_frames(
                        v.table,
                        id as u128,
                    )
                } else {
                    a matches Action::Refuse { stream_id: s, reason } && s == stream_id && reason@
                        == "data_channel_unavailable"@
                },
            },
        },
        ControlMessage::StreamClose { stream_id, reason } => match unsigned_value(
            stream_id@,
            u128::MAX as nat,
        ) {
            None => a == Action::Nothing,
            Some(id) => a matches Action::Close { id: i, reason: r } && i == id && match reason {
                Some(text) => r == text,
                None => r@ == "server_close"@,
            },
        },
        ControlMessage::ProbeLocal { probe_id, tunnel_id } => a matches Action::Probe {
            probe_id: p,
            spec,
        } && p == probe_id && spec == spec_of(v.specs, tunnel_id@),
        ControlMessage::RestartAgent { restart_id, .. } => a matches Action::Restart { progress }
            && (progress matches ControlMessage::RestartProgress {
            restart_id: r,
            progress: n,
            phase,
            message: Some(text),
        } && r == restart_id && n == 30 && phase@ == "stopping"@ && text@
            == "代理已收到重启指令,正在停止本地隧道"@),
        _ => a == Action::Nothing,
    }
}

/// An agent's control session, over its connections.
pub struct AgentSession {
    table: StreamTable,
    specs: Vec<TunnelSpec>,
    channels: HashSet<u16>,
    opened: bool,
    wanted: u16,
    settings: AgentSettings,
    synced_at: Option<u64>,
    last_pong: u64,
    ping_sent: Option<u64>,
    rtt_ms: u32,
    restart: Option<String>,
}

impl View for AgentSession {
    type V = SessionView;

    closed spec fn view(&self) -> SessionView {
        SessionView {
            table: self.table@,
            specs: self.specs@,
            channels: self.channels@,
            opened: self.opened,
            wanted: self.wanted,
            settings: self.settings,
            synced_at: self.synced_at,
            last_pong: self.last_pong,
            ping_sent: self.ping_sent,
            rtt_ms: self.rtt_ms,
            restart: self.restart,
        }
    }
}

impl AgentSession {
    /// A first connection that starts now, under the settings known so far, and
    /// will open `wanted` data channels.
    pub fn new(settings: AgentSettings, synced_at: Option<u64>, wanted: u16, now: u64) -> (r: Self)
        ensures
            r@ == (SessionView {
                table: TableView { streams: Map::empty(), pending: Map::empty() },
                specs: Seq::empty(),
                channels: Set::empty(),
                opened: false,
                wanted,
                settings,
                synced_at,
                last_pong: now,
                ping_sent: None,
                rtt_ms: 0,
                restart: None,
            }),
            r@ == fresh(settings, synced_at, wanted, now),
    {
        AgentSession {
            table: StreamTable::new(),
            specs: Vec::new(),
            channels: HashSet::new(),
            opened: false,
            wanted,
            settings,
            synced_at,
            last_pong: now,
            ping_sent: None,
            rtt_ms: 0,
            restart: None,
        }
    }

    /// A new connection starts now and will open `wanted` data channels. The
    /// tunnels and the settings stay until the server sends others.
    pub fn begin(&mut self, wanted: u16, now: u64)
        ensures
            final(self)@ == (SessionView {
                table: TableView { streams: Map::empty(), pending: Map::empty() },
                opened: false,
                wanted,
                last_pong: now,
                ping_sent: None,
                rtt_ms: 0,
                restart: None,
                ..old(self)@
            }),
            final(self)@ == begun(old(self)@, wanted, now),
    {
        self.table.clear();
        self.opened = false;
        self.wanted = wanted;
        self.last_pong = now;
        self.ping_sent = None;
        self.rtt_ms = 0;
        self.restart = None;
    }

    /// The tunnel of an id.
    pub fn find_spec(&self, id: &str) -> (r: Option<TunnelSpec>)
        ensures
            r == spec_of(self@.specs, id@),
    {
        let ghost all = self.specs@;
        let mut i: usize = self.specs.len();
        assert(all.take(all.len() as int) =~= all);
        while i > 0
            invariant
                i <= self.specs@.len(),
                all == self.specs@,
                spec_of(all, id@) == spec_of(all.take(i as int), id@),
            decreases i,
        {
            i -= 1;
            proof {
                assert(all.take(i + 1).drop_last() =~= all.take(i as int));
            }
            if same_text(self.specs[i].id.as_str(), id) {
                return Some(self.specs[i].clone());
            }
        }
        None
    }

    /// Takes a message of the server and says what it asks for.
    pub fn handle(&mut self, message: ControlMessage, unix_secs: u64) -> (r: Action)
        ensures
            final(self)@ == session_after(old(self)@, message, unix_secs),
            action_for(old(self)@, message, unix_secs, r),
    {
        match message {
            ControlMessage::Registered { tunnels, .. } => self.sync_tunnels(tunnels),
            ControlMessage::SyncTunnels { tunnels } => self.sync_tunnels(tunnels),
            ControlMessage::BandwidthConfig { mbps } => Action::Bandwidth(mbps),
            ControlMessage::SettingsSync { settings } => {
                let reconnect = settings_reconnect_decision(&self.settings, &settings);
                let updates = updates_for_settings(&settings, unix_secs);
                let log_level = settings.log_level.clone();
                self.settings = settings;
                self.synced_at = Some(unix_secs);
                Action::Settings { updates, log_level, reconnect }
            },
            ControlMessage::TokenRotate { token } => Action::Token {
                updates: updates_for_token(token),
            },
            ControlMessage::StreamOpen { stream_id, tunnel_id, data_channel } => {
                self.open_stream(stream_id, tunnel_id, data_channel)
            },
            ControlMessage::StreamClose { stream_id, reason } => match parse_u128(
                stream_id.as_str(),
            ) {
                None => Action::Nothing,
                Some(id) => {
                    self.table.close_stream(id);
                    let reason = match reason {
                        Some(text) => text,
                        None => "server_close".to_owned(),
                    };
                    Action::Close { id, reason }
                },
            },
            ControlMessage::ProbeLocal { probe_id, tunnel_id } => {
                let spec = self.find_spec(tunnel_id.as_str());
                Action::Probe { probe_id, spec }
            },
            ControlMessage::RestartAgent { restart_id, .. } => {
                self.restart = Some(restart_id.clone());
                Action::Restart {
                    progress: ControlMessage::RestartProgress {
                        restart_id,
                        progress: 30,
                        phase: "stopping".to_owned(),
                        message: Some("代理已收到重启指令,正在停止本地隧道".to_owned()),
                    },
                }
            },
            _ => Action::Nothing,
        }
    }

    fn sync_tunnels(&mut self, tunnels: Vec<TunnelSpec>) -> (r: Action)
        ensures
            final(self)@ == synced(old(self)@, tunnels@),
            r == Action::OpenChannels(
                if old(self)@.opened {
                    0
                } else {
                    old(self)@.wanted
                },
            ),
    {
        self.specs = tunnels;
        if self.opened {
            return Action::OpenChannels(0);
        }
        self.opened = true;
        self.channels.clear();
        Action::OpenChannels(self.wanted)
    }

    fn open_stream(&mut self, stream_id: String, tunnel_id: String, data_channel: u16) -> (r:
        Action)
        ensures
            final(self)@ == session_after(
                old(self)@,
                (ControlMessage::StreamOpen { stream_id, tunnel_id, data_channel }),
                0,
            ),
            action_for(
                old(self)@,
                (ControlMessage::StreamOpen { stream_id, tunnel_id, data_channel }),
                0,
                r,
            ),
    {
        let id: u128 = match parse_u128(stream_id.as_str()) {
            None => {
                return Action::Nothing;
            },
            Some(id) => id,
        };
        let spec = match self.find_spec(tunnel_id.as_str()) {
            None => {
                return Action::Refuse { stream_id, reason: "unknown_tunnel".to_owned() };
            },
            Some(spec) => spec,
        };
        if !self.channels.contains(&data_channel) {
            return Action::Refuse { stream_id, reason: "data_channel_unavailable".to_owned() };
        }
        let udp = match spec.kind {
            TunnelKind::Udp => true,
            _ => false,
        };
        let frames = self.table.open_stream(id, udp);
        Action::Open { id, spec, data_channel, frames }
    }

    /// A data channel was bound.
    pub fn channel_bound(&mut self, channel_id: u16)
        ensures
            final(self)@ == (SessionView {
                channels: old(self)@.channels.insert(channel_id),
                ..old(self)@
            }),
            final(self)@ == with_channel(old(self)@, channel_id),
    {
        self.channels.insert(channel_id);
    }

    /// A data channel was lost.
    pub fn channel_lost(&mut self, channel_id: u16)
        ensures
            final(self)@ == (SessionView {
                channels: old(self)@.channels.remove(channel_id),
                ..old(self)@
            }),
            final(self)@ == without_channel(old(self)@, channel_id),
    {
        self.channels.remove(&channel_id);
    }

    /// A ping was sent.
    pub fn ping_sent(&mut self, now: u64)
        ensures
            final(self)@ == (SessionView { ping_sent: Some(now), ..old(self)@ }),
            final(self)@ == pinged(old(self)@, now),
    {
        self.ping_sent = Some(now);
    }

    /// A pong arrived. It answers the ping before it, if one is open.
    pub fn pong(&mut self, now: u64)
        ensures
            final(self)@ == (SessionView {
                last_pong: now,
                ping_sent: None,
                rtt_ms: match old(self)@.ping_sent {
                    Some(sent) => round_trip_ms(sent, now),
                    None => old(self)@.rtt_ms,
                },
                ..old(self)@
            }),
            final(self)@ == ponged(old(self)@, now),
    {
        self.last_pong = now;
        match self.ping_sent {
            Some(sent) => {
                let elapsed: u64 = if now > sent {
                    now - sent
                } else {
                    0
                };
                let ms: u64 = elapsed / 1_000_000;
                self.rtt_ms = if ms <= 4_294_967_295 {
                    ms as u32
                } else {
                    4_294_967_295
                };
            },
            None => {},
        }
        self.ping_sent = None;
    }

    /// A heartbeat is due: frames that waited too long are dropped, and either
    /// the server has been silent for too long or a heartbeat is sent.
    pub fn tick(&mut self, now: u64) -> (r: Tick)
        ensures
            final(self)@ == (SessionView {
                table: expired(old(self)@.table, now),
                ..old(self)@
            }),
            r == if now - old(self)@.last_pong > old(self)@.settings.pong_timeout_secs * SECOND {
                Tick::Timeout
            } else {
                Tick::Beat { latency_ms: old(self)@.rtt_ms }
            },
            r == tick_of(old(self)@, now),
    {
        self.table.expire_pending(now);
        let limit: u128 = self.settings.pong_timeout_secs as u128 * 1_000_000_000;
        if self.last_pong <= now && (now - self.last_pong) as u128 > limit {
            return Tick::Timeout;
        }
        Tick::Beat { latency_ms: self.rtt_ms }
    }

    /// The settings in force.
    pub fn settings(&self) -> (r: AgentSettings)
        ensures
            r == self@.settings,
    {
        self.settings.clone()
    }

    /// When settings were last pushed, in seconds of Unix time.
    pub fn synced_at(&self) -> (r: Option<u64>)
        ensures
            r == self@.synced_at,
    {
        self.synced_at
    }

    /// The session's streams.
    pub fn streams(&mut self) -> (r: &mut StreamTable)
        ensures
            r@ == old(self)@.table,
            final(self)@ == (SessionView { table: final(r)@, ..old(self)@ }),
    {
        &mut self.table
    }

    /// Ends the session. `reconnect` says that a message asked for a new one.
    pub fn end(&mut self, reconnect: bool) -> (r: RunOutcome)
        ensures
            final(self)@ == (SessionView {
                table: TableView { streams: Map::empty(), pending: Map::empty() },
                channels: Set::empty(),
                ..old(self)@
            }),
            r == if !reconnect {
                RunOutcome::Disconnected
            } else {
                match old(self)@.restart {
                    Some(restart_id) => RunOutcome::Restarting { restart_id },
                    None => RunOutcome::ReconnectNow,
                }
            },
            final(self)@ == ended(old(self)@),
            r == outcome_after(old(self)@, reconnect),
    {
        self.table.clear();
        self.channels.clear();
        if !reconnect {
            return RunOutcome::Disconnected;
        }
        match &self.restart {
            Some(restart_id) => RunOutcome::Restarting { restart_id: restart_id.clone() },
            None => RunOutcome::ReconnectNow,
        }
    }
}

/// The time from a ping to its pong, in milliseconds.
pub open spec fn round_trip_ms(sent: u64, now: u64) -> u32 {
    let elapsed = if now > sent {
        (now - sent) as u64
    } else {
        0
    };
    let ms = elapsed / 1_000_000;
    if ms <= u32::MAX {
        ms as u32
    } else {
        u32::MAX
    }
}

/// Pushed settings without an address need a new session only for another
/// number of data channels, and another number always needs one.
pub proof fn empty_address_keeps_session(current: AgentSettings, incoming: AgentSettings)
    requires
        incoming.server_url@.len() == 0,
    ensures
        reconnect_needed(current, incoming) <==> incoming.data_channels != current.data_channels,
{
}

/// A session whose new connection has just started.
pub open spec fn begun(v: SessionView, wanted: u16, now: u64) -> SessionView {
    SessionView {
        table: TableView { streams: Map::empty(), pending: Map::empty() },
        opened: false,
        wanted,
        last_pong: now,
        ping_sent: None,
        rtt_ms: 0,
        restart: None,
        ..v
    }
}

/// A session with one more data channel.
pub open spec fn with_channel(v: SessionView, channel_id: u16) -> SessionView {
    SessionView { channels: v.channels.insert(channel_id), ..v }
}

/// A session with one data channel less.
pub open spec fn without_channel(v: SessionView, channel_id: u16) -> SessionView {
    SessionView { channels: v.channels.remove(channel_id), ..v }
}

/// A session that has sent a ping.
pub open spec fn pinged(v: SessionView, now: u64) -> SessionView {
    SessionView { ping_sent: Some(now), ..v }
}

/// A session that has heard a pong.
pub open spec fn ponged(v: SessionView, now: u64) -> SessionView {
    SessionView {
        last_pong: now,
        ping_sent: None,
        rtt_ms: match v.ping_sent {
            Some(sent) => round_trip_ms(sent, now),
            None => v.rtt_ms,
        },
        ..v
    }
}

/// What a heartbeat is due to bring.
pub open spec fn tick_of(v: SessionView, now: u64) -> Tick {
    if now - v.last_pong > v.settings.pong_timeout_secs * SECOND {
        Tick::Timeout
    } else {
        Tick::Beat { latency_ms: v.rtt_ms }
    }
}

/// A session that has ended.
pub open spec fn ended(v: SessionView) -> SessionView {
    SessionView {
        table: TableView { streams: Map::empty(), pending: Map::empty() },
        channels: Set::empty(),
        ..v
    }
}

/// How a session ends.
pub open spec fn outcome_after(v: SessionView, reconnect: bool) -> RunOutcome {
    if !reconnect {
        RunOutcome::Disconnected
    } else {
        match v.restart {
            Some(restart_id) => RunOutcome::Restarting { restart_id },
            None => RunOutcome::ReconnectNow,
        }
    }
}

/// Settings with the address and the number of channels that are in force never
/// need a new session. Another address, unless it is empty, always needs one,
/// and so does another number of channels.
pub proof fn reconnects_only_when_moved(current: AgentSettings, incoming: AgentSettings)
    ensures
        incoming.server_url@ == current.server_url@ && incoming.data_channels
            == current.data_channels ==> !reconnect_needed(current, incoming),
        incoming.server_url@.len() > 0 && incoming.server_url@ != current.server_url@
            ==> reconnect_needed(current, incoming),
        incoming.data_channels != current.data_channels ==> reconnect_needed(current, incoming),
        reconnect_needed(current, incoming) ==> incoming.data_channels != current.data_channels || (
        incoming.server_url@.len() > 0 && incoming.server_url@ != current.server_url@),
{
}

/// Pushed settings are in force at once, and pushing the same again never ends
/// the session.
pub proof fn pushed_settings_settle(
    v: SessionView,
    settings: AgentSettings,
    unix_secs: u64,
    later: u64,
    a: Action,
)
    requires
        ({
            let m = ControlMessage::SettingsSync { settings };
            action_for(session_after(v, m, unix_secs), m, later, a)
        }),
    ensures
        ({
            let w = session_after(v, ControlMessage::SettingsSync { settings }, unix_secs);
            &&& w.settings == settings
            &&& w.synced_at == Some(unix_secs)
            &&& w.table == v.table
            &&& w.specs == v.specs
            &&& w.channels == v.channels
        }),
        a matches Action::Settings { reconnect, log_level, .. } && !reconnect && log_level
            == settings.log_level,
{
}

/// The tunnel that is found under an id has that id and is one of those given,
/// one is found exactly where there is one, and of two the later is found.
pub proof fn tunnel_found_by_id(specs: Seq<TunnelSpec>, id: Seq<char>, last: TunnelSpec)
    ensures
        spec_of(specs, id) matches Some(s) ==> s.id@ == id && specs.contains(s),
        spec_of(specs, id) is None ==> forall|i: int|
            0 <= i < specs.len() ==> (#[trigger] specs[i]).id@ != id,
        spec_of(specs.push(last), last.id@) == Some(last),
        last.id@ != id ==> spec_of(specs.push(last), id) == spec_of(specs, id),
    decreases specs.len(),
{
    assert(specs.push(last).drop_last() =~= specs);
    if specs.len() > 0 {
        tunnel_found_by_id(specs.drop_last(), id, last);
        assert(specs.last() == specs[specs.len() - 1]);
        if specs.last().id@ != id {
            let rest = specs.drop_last();
            if spec_of(rest, id) is None {
                assert forall|i: int| 0 <= i < specs.len() implies (#[trigger] specs[i]).id@
                    != id by {
                    if i < rest.len() {
                        assert(rest[i].id@ != id);
                    }
                }
            } else {
                let s = spec_of(rest, id)->0;
                let i = choose|i: int| 0 <= i < rest.len() && rest[i] == s;
                assert(specs[i] == s);
            }
        }
    }
}

/// A stream that opens for a known tunnel on a bound channel carries datagrams
/// if and only if the tunnel is a UDP tunnel, and bytes for TCP and HTTP. What
/// waited for it is handed out and waits no more. No other stream notices.
pub proof fn opened_stream_routes_by_kind(
    v: SessionView,
    stream_id: String,
    tunnel_id: String,
    data_channel: u16,
    unix_secs: u64,
    id: u128,
    spec: TunnelSpec,
    other: u128,
    a: Action,
)
    requires
        unsigned_value(stream_id@, u128::MAX as nat) == Some(id as nat),
        spec_of(v.specs, tunnel_id@) == Some(spec),
        v.channels.contains(data_channel),
        other != id,
        action_for(
            v,
            (ControlMessage::StreamOpen { stream_id, tunnel_id, data_channel }),
            unix_secs,
            a,
        ),
    ensures
        ({
            let m = ControlMessage::StreamOpen { stream_id, tunnel_id, data_channel };
            let w = session_after(v, m, unix_secs);
            &&& (route_of(w.table, id) == AgentRoute::Datagram <==> spec.kind == TunnelKind::Udp)
            &&& (route_of(w.table, id) == AgentRoute::Bytes <==> spec.kind == TunnelKind::Tcp
                || spec.kind == TunnelKind::Http)
            &&& waited_frames(w.table, id).len() == 0
            &&& route_of(w.table, other) == route_of(v.table, other)
            &&& waited_frames(w.table, other) == waited_frames(v.table, other)
            &&& w.channels == v.channels && w.settings == v.settings && w.specs == v.specs
        }),
        a matches Action::Open { id: i, spec: s, data_channel: c, frames } && i == id && s == spec
            && c == data_channel && frame_views(frames@) == waited_frames(v.table, id),
{
}

/// A stream of an unknown tunnel, or on a channel that is not bound, is refused
/// under its own id, and the session stays as it is.
pub proof fn stream_refused_where_it_cannot_open(
    v: SessionView,
    stream_id: String,
    tunnel_id: String,
    data_channel: u16,
    unix_secs: u64,
    a: Action,
)
    requires
        unsigned_value(stream_id@, u128::MAX as nat) is Some,
        (forall|i: int| 0 <= i < v.specs.len() ==> (#[trigger] v.specs[i]).id@ != tunnel_id@)
            || !v.channels.contains(data_channel),
        action_for(
            v,
            (ControlMessage::StreamOpen { stream_id, tunnel_id, data_channel }),
            unix_secs,
            a,
        ),
    ensures
        session_after(
            v,
            (ControlMessage::StreamOpen { stream_id, tunnel_id, data_channel }),
            unix_secs,
        ) == v,
        a matches Action::Refuse { stream_id: s, .. } && s == stream_id,
{
    if spec_of(v.specs, tunnel_id@) is Some {
        let s = spec_of(v.specs, tunnel_id@)->0;
        tunnel_found_by_id(v.specs, tunnel_id@, s);
        let i = choose|i: int| 0 <= i < v.specs.len() && v.specs[i] == s;
        assert(v.specs[i].id@ == tunnel_id@);
    }
}

/// A data channel carries streams from when it was bound until it is lost, and
/// neither binding nor losing one concerns another.
pub proof fn channel_usable_while_bound(v: SessionView, channel_id: u16, other: u16)
    requires
        other != channel_id,
    ensures
        with_channel(v, channel_id).channels.contains(channel_id),
        !without_channel(v, channel_id).channels.contains(channel_id),
        with_channel(v, channel_id).channels.contains(other) == v.channels.contains(other),
        without_channel(v, channel_id).channels.contains(other) == v.channels.contains(other),
        with_channel(v, channel_id).table == v.table,
        without_channel(v, channel_id).table == v.table,
{
}

/// A stream that the server closed is gone, with whatever waited for it, and no
/// other stream notices.
pub proof fn closed_stream_is_gone(
    v: SessionView,
    stream_id: String,
    reason: Option<String>,
    unix_secs: u64,
    id: u128,
    other: u128,
    a: Action,
)
    requires
        unsigned_value(stream_id@, u128::MAX as nat) == Some(id as nat),
        other != id,
        action_for(v, (ControlMessage::StreamClose { stream_id, reason }), unix_secs, a),
    ensures
        ({
            let w = session_after(
                v,
                (ControlMessage::StreamClose { stream_id, reason }),
                unix_secs,
            );
            &&& route_of(w.table, id) == AgentRoute::Buffer
            &&& waited_frames(w.table, id).len() == 0
            &&& route_of(w.table, other) == route_of(v.table, other)
            &&& waited_frames(w.table, other) == waited_frames(v.table, other)
            &&& w.channels == v.channels && w.settings == v.settings && w.specs == v.specs
        }),
        a matches Action::Close { id: i, .. } && i == id,
        reason matches Some(text) ==> (a matches Action::Close { reason: r, .. } && r == text),
{
}

/// The tunnels that the server sent last are those that are known. Of each
/// connection the first list, and only the first, has the data channels opened
/// that were wanted; it finds none bound, and later lists keep those that are.
pub proof fn first_tunnels_open_channels(
    v: SessionView,
    first: Vec<TunnelSpec>,
    second: Vec<TunnelSpec>,
    unix_secs: u64,
    id: Seq<char>,
    a: Action,
    b: Action,
    wanted: u16,
    now: u64,
    channel_id: u16,
)
    requires
        action_for(
            begun(v, wanted, now),
            (ControlMessage::SyncTunnels { tunnels: first }),
            unix_secs,
            a,
        ),
        action_for(
            with_channel(
                session_after(
                    begun(v, wanted, now),
                    (ControlMessage::SyncTunnels { tunnels: first }),
                    unix_secs,
                ),
                channel_id,
            ),
            (ControlMessage::SyncTunnels { tunnels: second }),
            unix_secs,
            b,
        ),
    ensures
        a == Action::OpenChannels(wanted),
        b == Action::OpenChannels(0),
        ({
            let w = session_after(
                begun(v, wanted, now),
                (ControlMessage::SyncTunnels { tunnels: first }),
                unix_secs,
            );
            let x = session_after(
                with_channel(w, channel_id),
                (ControlMessage::SyncTunnels { tunnels: second }),
                unix_secs,
            );
            &&& spec_of(w.specs, id) == spec_of(first@, id)
            &&& spec_of(x.specs, id) == spec_of(second@, id)
            &&& w.channels == Set::<u16>::empty()
            &&& x.channels.contains(channel_id)
            &&& x.settings == v.settings
        }),
{
}

/// A registration brings tunnels just as a later list of tunnels does.
pub proof fn registration_brings_tunnels(
    v: SessionView,
    device_id: String,
    tunnels: Vec<TunnelSpec>,
    unix_secs: u64,
    a: Action,
)
    ensures
        session_after(v, (ControlMessage::Registered { device_id, tunnels }), unix_secs)
            == session_after(v, (ControlMessage::SyncTunnels { tunnels }), unix_secs),
        action_for(v, (ControlMessage::Registered { device_id, tunnels }), unix_secs, a)
            == action_for(v, (ControlMessage::SyncTunnels { tunnels }), unix_secs, a),
{
}

/// A cap, a new token and a probe are handed on as they came and change nothing
/// in the session.
pub proof fn requests_are_handed_on(
    v: SessionView,
    mbps: u64,
    token: String,
    probe_id: String,
    tunnel_id: String,
    unix_secs: u64,
    a: Action,
    b: Action,
    c: Action,
)
    requires
        action_for(v, (ControlMessage::BandwidthConfig { mbps }), unix_secs, a),
        action_for(v, (ControlMessage::TokenRotate { token }), unix_secs, b),
        action_for(v, (ControlMessage::ProbeLocal { probe_id, tunnel_id }), unix_secs, c),
    ensures
        session_after(v, (ControlMessage::BandwidthConfig { mbps }), unix_secs) == v,
        session_after(v, (ControlMessage::TokenRotate { token }), unix_secs) == v,
        session_after(v, (ControlMessage::ProbeLocal { probe_id, tunnel_id }), unix_secs) == v,
        a == Action::Bandwidth(mbps),
        b matches Action::Token { updates } && last_value(pair_views(updates@), "TOKEN"@) == Some(
            token@,
        ) && last_value(pair_views(updates@), "ENROLL_CODE"@) == Some(""@),
        c matches Action::Probe { probe_id: p, spec } && p == probe_id && (spec matches Some(s)
            ==> s.id@ == tunnel_id@ && v.specs.contains(s)) && (spec is None ==> forall|i: int|
            0 <= i < v.specs.len() ==> (#[trigger] v.specs[i]).id@ != tunnel_id@),
{
    lemma_token_updates(token@);
    let s = TunnelSpec {
        id: tunnel_id,
        name: tunnel_id,
        kind: TunnelKind::Tcp,
        public_port: 0,
        local_host: tunnel_id,
        local_port: 0,
        enabled: false,
        max_connections: 0,
    };
    tunnel_found_by_id(v.specs, tunnel_id@, s);
}

/// What a new token changes, key by key.
pub proof fn lemma_token_updates(token: Seq<char>)
    ensures
        last_value(token_updates(token), "TOKEN"@) == Some(token),
        last_value(token_updates(token), "ENROLL_CODE"@) == Some(""@),
{
    reveal_strlit("TOKEN");
    reveal_strlit("ENROLL_CODE");
    let u = token_updates(token);
    assert("TOKEN"@.len() != "ENROLL_CODE"@.len());
    assert(u.last() == ("ENROLL_CODE"@, ""@));
    assert(u.drop_last() =~= seq![("TOKEN"@, token)]);
    reveal_with_fuel(last_value, 3);
}

/// A session counts as dead exactly when nothing was heard for longer than the
/// timeout that is in force, counted from the last pong.
pub proof fn dead_only_after_silence(v: SessionView, heard: u64, now: u64)
    requires
        heard <= now,
    ensures
        tick_of(ponged(v, heard), now) is Timeout <==> now > heard
            + v.settings.pong_timeout_secs * 1_000_000_000,
        tick_of(begun(v, 0, heard), now) is Timeout <==> now > heard
            + v.settings.pong_timeout_secs * 1_000_000_000,
{
}

/// The latency that a heartbeat reports is the time from a ping to its pong, in
/// whole milliseconds. A pong without a ping leaves it as it was.
pub proof fn latency_is_measured(v: SessionView, sent: u64, heard: u64)
    requires
        sent <= heard,
        v.settings.pong_timeout_secs >= 1,
    ensures
        heard - sent < 4_294_967_296_000_000 ==> (tick_of(ponged(pinged(v, sent), heard), heard)
            matches Tick::Beat { latency_ms } && latency_ms * 1_000_000 <= heard - sent < (
        latency_ms + 1) * 1_000_000),
        ponged(ponged(pinged(v, sent), heard), heard).rtt_ms == ponged(
            pinged(v, sent),
            heard,
        ).rtt_ms,
{
}

/// After a request for a restart the session ends with it, under the id that
/// was given. Without one, it connects again at once where that was asked for,
/// and else waits.
pub proof fn restart_ends_the_session(
    v: SessionView,
    restart_id: String,
    reason: Option<String>,
    unix_secs: u64,
    wanted: u16,
    now: u64,
)
    ensures
        outcome_after(
            session_after(v, (ControlMessage::RestartAgent { restart_id, reason }), unix_secs),
            true,
        ) == (RunOutcome::Restarting { restart_id }),
        outcome_after(begun(v, wanted, now), true) == RunOutcome::ReconnectNow,
        outcome_after(v, false) == RunOutcome::Disconnected,
{
}

/// A new connection, and one that has ended, have no stream, and what is known
/// of tunnels and settings stays. One that has ended has no channel.
pub proof fn connections_start_and_end_clean(v: SessionView, wanted: u16, now: u64, id: u128)
    ensures
        route_of(begun(v, wanted, now).table, id) == AgentRoute::Buffer,
        waited_frames(begun(v, wanted, now).table, id).len() == 0,
        begun(v, wanted, now).specs == v.specs && begun(v, wanted, now).settings == v.settings,
        route_of(ended(v).table, id) == AgentRoute::Buffer,
        waited_frames(ended(v).table, id).len() == 0,
        ended(v).specs == v.specs && ended(v).settings == v.settings,
        forall|c: u16| !#[trigger] ended(v).channels.contains(c),
{
}

/// A session before its first connection.
pub open spec fn fresh(
    settings: AgentSettings,
    synced_at: Option<u64>,
    wanted: u16,
    now: u64,
) -> SessionView {
    SessionView {
        table: TableView { streams: Map::empty(), pending: Map::empty() },
        specs: Seq::empty(),
        channels: Set::empty(),
        opened: false,
        wanted,
        settings,
        synced_at,
        last_pong: now,
        ping_sent: None,
        rtt_ms: 0,
        restart: None,
    }
}

/// A new session knows no tunnels and has no channels; it keeps the settings
/// given, and is otherwise as a connection begins.
pub proof fn new_session_is_begun(
    settings: AgentSettings,
    synced_at: Option<u64>,
    wanted: u16,
    now: u64,
    other: u16,
    earlier: u64,
    id: Seq<char>,
    c: u16,
)
    ensures
        begun(fresh(settings, synced_at, other, earlier), wanted, now) == fresh(
            settings,
            synced_at,
            wanted,
            now,
        ),
        spec_of(fresh(settings, synced_at, wanted, now).specs, id) is None,
        !fresh(settings, synced_at, wanted, now).channels.contains(c),
        fresh(settings, synced_at, wanted, now).settings == settings,
        fresh(settings, synced_at, wanted, now).synced_at == synced_at,
{
}

} // verus!
