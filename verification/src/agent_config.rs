//! Where an agent's connection parameters come from: environment variables,
//! the credentials file, the bootstrap file, and safe defaults.

use vstd::prelude::*;

use crate::agent_session::{lemma_token_updates, settings_updates, token_updates};
use crate::key_values::{last_value, merge_effect, merged, KeyValues, Pair};
use crate::number::{dec, lemma_dec_digits, number_round_trip, parse_u64, unsigned_value};
use crate::protocol::AgentSettings;
use crate::settings::{
    in_order, is_log_level, lemma_last_value_at, log_level_name, settings_view, values_in_range,
};
use crate::text::{chars_of, same_text, text_of, trim, trimmed};

verus! {

/// Keys and values of a file.
pub type Values = Map<Seq<char>, Seq<char>>;

/// The connection parameters of one agent run.
#[derive(Debug, PartialEq, Eq)]
pub struct AgentConfig {
    pub server: String,
    pub data_server: String,
    pub token: String,
    pub name: String,
    pub data_channels: u16,
    pub heartbeat_secs: u64,
    pub pong_timeout_secs: u64,
    pub reconnect_min_secs: u64,
    pub reconnect_max_secs: u64,
    pub log_level: String,
}

/// The environment variables that matter, where they are set.
#[derive(Debug, PartialEq, Eq)]
pub struct AgentEnv {
    pub server_url: Option<String>,
    pub token: Option<String>,
    pub computer_name: Option<String>,
    pub log_level: Option<String>,
}

/// The values of connection parameters.
#[verifier::ext_equal]
pub struct ConfigView {
    pub server: Seq<char>,
    pub data_server: Seq<char>,
    pub token: Seq<char>,
    pub name: Seq<char>,
    pub data_channels: u16,
    pub heartbeat_secs: u64,
    pub pong_timeout_secs: u64,
    pub reconnect_min_secs: u64,
    pub reconnect_max_secs: u64,
    pub log_level: Seq<char>,
}

impl View for AgentConfig {
    type V = ConfigView;

    open spec fn view(&self) -> ConfigView {
        ConfigView {
            server: self.server@,
            data_server: self.data_server@,
            token: self.token@,
            name: self.name@,
            data_channels: self.data_channels,
            heartbeat_secs: self.heartbeat_secs,
            pong_timeout_secs: self.pong_timeout_secs,
            reconnect_min_secs: self.reconnect_min_secs,
            reconnect_max_secs: self.reconnect_max_secs,
            log_level: self.log_level@,
        }
    }
}

/// The characters of a text, where there is one.
pub open spec fn text_view(s: Option<String>) -> Option<Seq<char>> {
    match s {
        Some(t) => Some(t@),
        None => None,
    }
}

/// A text that is not blank.
pub open spec fn unless_blank(s: Option<Seq<char>>) -> Option<Seq<char>> {
    match s {
        Some(t) => if trimmed(t).len() > 0 {
            Some(t)
        } else {
            None
        },
        None => None,
    }
}

/// The first that there is.
pub open spec fn first_of(a: Option<Seq<char>>, b: Option<Seq<char>>) -> Option<Seq<char>> {
    match a {
        Some(t) => Some(t),
        None => b,
    }
}

/// What there is, or a default.
pub open spec fn or_text(a: Option<Seq<char>>, otherwise: Seq<char>) -> Seq<char> {
    match a {
        Some(t) => t,
        None => otherwise,
    }
}

/// The number that a file gives a key, where it is in range.
pub open spec fn number_in(values: Values, key: Seq<char>, min: u64, max: u64) -> Option<nat> {
    match values.get(key) {
        None => None,
        Some(v) => match unsigned_value(v, u64::MAX as nat) {
            None => None,
            Some(n) => if min <= n <= max {
                Some(n)
            } else {
                None
            },
        },
    }
}

/// The first number in range that files give a key.
pub open spec fn number_among(
    sources: Seq<Values>,
    key: Seq<char>,
    min: u64,
    max: u64,
) -> Option<nat>
    decreases sources.len(),
{
    if sources.len() == 0 {
        None
    } else {
        match number_in(sources.first(), key, min, max) {
            Some(n) => Some(n),
            None => number_among(sources.drop_first(), key, min, max),
        }
    }
}

/// The first number in range, key by key, and for each key file by file; or a
/// default.
pub open spec fn picked(
    keys: Seq<Seq<char>>,
    sources: Seq<Values>,
    default: u64,
    min: u64,
    max: u64,
) -> nat
    decreases keys.len(),
{
    if keys.len() == 0 {
        default as nat
    } else {
        match number_among(sources, keys.first(), min, max) {
            Some(n) => n,
            None => picked(keys.drop_first(), sources, default, min, max),
        }
    }
}

/// A number from the credentials or the bootstrap file, under any of its keys;
/// only where neither has one in range, from the environment variable of the
/// given name; or a default.
pub open spec fn with_fallback(
    keys: Seq<Seq<char>>,
    variable: Seq<char>,
    credentials: Values,
    file: Values,
    variables: Values,
    default: u64,
    min: u64,
    max: u64,
) -> nat {
    let fallback = picked(seq![variable], seq![variables], default, min, max);
    picked(keys, seq![credentials, file], fallback as u64, min, max)
}

/// The characters of each key.
pub open spec fn key_views(keys: Seq<&str>) -> Seq<Seq<char>> {
    Seq::new(keys.len(), |i: int| keys[i]@)
}

/// The contents of each file.
pub open spec fn source_views(sources: Seq<&KeyValues>) -> Seq<Values> {
    Seq::new(sources.len(), |i: int| sources[i]@)
}

/// Picks the first valid number from `keys` across `sources`, or the default.
pub fn pick_num(keys: &[&str], sources: &[&KeyValues], default: u64, min: u64, max: u64) -> (r: u64)
    requires
        forall|i: int| 0 <= i < sources@.len() ==> (#[trigger] sources@[i]).wf(),
    ensures
        r == picked(key_views(keys@), source_views(sources@), default, min, max),
{
    let ghost ks = key_views(keys@);
    let ghost vs = source_views(sources@);
    let mut i: usize = 0;
    assert(ks.skip(0) =~= ks);
    while i < keys.len()
        invariant
            i <= keys@.len(),
            ks == key_views(keys@),
            vs == source_views(sources@),
            forall|j: int| 0 <= j < sources@.len() ==> (#[trigger] sources@[j]).wf(),
            picked(ks, vs, default, min, max) == picked(ks.skip(i as int), vs, default, min, max),
        decreases keys@.len() - i,
    {
        let key: &str = keys[i];
        let mut j: usize = 0;
        assert(vs.skip(0) =~= vs);
        assert(ks.skip(i as int).first() == key@);
        assert(ks.skip(i as int).drop_first() =~= ks.skip(i + 1));
        while j < sources.len()
            invariant
                j <= sources@.len(),
                i < keys@.len(),
                ks == key_views(keys@),
                vs == source_views(sources@),
                key@ == ks[i as int],
                forall|n: int| 0 <= n < sources@.len() ==> (#[trigger] sources@[n]).wf(),
                picked(ks, vs, default, min, max) == picked(
                    ks.skip(i as int),
                    vs,
                    default,
                    min,
                    max,
                ),
                ks.skip(i as int).first() == key@,
                number_among(vs, key@, min, max) == number_among(
                    vs.skip(j as int),
                    key@,
                    min,
                    max,
                ),
            decreases sources@.len() - j,
        {
            assert(vs.skip(j as int).first() == sources@[j as int]@);
            assert(vs.skip(j as int).drop_first() =~= vs.skip(j + 1));
            assert(sources@[j as int].wf());
            match sources[j].get(key) {
                Some(value) => match parse_u64(value.as_str()) {
                    Some(n) => {
                        if n >= min && n <= max {
                            return n;
                        }
                    },
                    None => {},
                },
                None => {},
            }
            j += 1;
        }
        i += 1;
    }
    default
}

/// The text of the address that a URL has with another path, where the text is
/// a URL.
pub uninterp spec fn url_with_path(url: Seq<char>, path: Seq<char>) -> Option<Seq<char>>;

/// Reads a URL with `url::Url::parse`, replaces its path by `Url::set_path`,
/// and writes it out. Which texts are URLs, and how a URL is written, is left
/// open.
#[verifier::external_body]
fn set_url_path(url: &str, path: &str) -> (r: Option<String>)
    ensures
        text_view(r) == url_with_path(url@, path@),
{
    let mut parsed = url::Url::parse(url).ok()?;
    parsed.set_path(path);
    Some(parsed.to_string())
}

/// A text without the slashes at its end.
pub open spec fn without_slashes(s: Seq<char>) -> Seq<char>
    decreases s.len(),
{
    if s.len() > 0 && s.last() == '/' {
        without_slashes(s.drop_last())
    } else {
        s
    }
}

/// The address of the data sockets of a server.
pub open spec fn data_address(server: Seq<char>, parsed: Option<Seq<char>>) -> Seq<char> {
    match parsed {
        Some(url) => url,
        None => without_slashes(server) + "/data"@,
    }
}

/// The address of the data sockets, given what the URL reader made of the
/// server address: its path replaced, or the path appended where it is no URL.
pub fn data_server_from(server: &str, parsed: Option<String>) -> (r: String)
    ensures
        r@ == data_address(server@, text_view(parsed)),
{
    match parsed {
        Some(url) => url,
        None => {
            let chars = chars_of(server);
            let mut n: usize = chars.len();
            assert(server@.take(server@.len() as int) =~= server@);
            while n > 0 && chars[n - 1] == '/'
                invariant
                    n <= chars@.len(),
                    chars@ == server@,
                    without_slashes(server@) == without_slashes(server@.take(n as int)),
                decreases n,
            {
                assert(server@.take(n as int).drop_last() =~= server@.take(n - 1));
                n -= 1;
            }
            let mut out = text_of(chars.as_slice(), 0, n);
            assert(out@ =~= server@.take(n as int));
            out.append("/data");
            out
        },
    }
}

/// The address of the data sockets of a server.
pub fn data_server_url(server: &str) -> (r: String)
    ensures
        r@ == data_address(server@, url_with_path(server@, "/data"@)),
{
    data_server_from(server, set_url_path(server, "/data"))
}

/// The server address.
pub open spec fn server_of(env: AgentEnv, credentials: Values, file: Values) -> Seq<char> {
    or_text(
        first_of(
            first_of(
                unless_blank(text_view(env.server_url)),
                unless_blank(credentials.get("SERVER_URL"@)),
            ),
            file.get("TUNNEL_SERVER_URL"@),
        ),
        "ws://127.0.0.1:18080/control"@,
    )
}

/// The access token; empty where there is none.
pub open spec fn token_of(env: AgentEnv, credentials: Values, file: Values) -> Seq<char> {
    or_text(
        first_of(
            first_of(unless_blank(text_view(env.token)), credentials.get("TOKEN"@)),
            file.get("TUNNEL_TOKEN"@),
        ),
        Seq::empty(),
    )
}

/// The log level: the first that is given anywhere, if it is one.
pub open spec fn level_of(env: AgentEnv, credentials: Values, file: Values) -> Seq<char> {
    match first_of(
        first_of(credentials.get("LOG_LEVEL"@), file.get("LOG_LEVEL"@)),
        text_view(env.log_level),
    ) {
        Some(level) => if log_level_name(level) {
            level
        } else {
            "info"@
        },
        None => "info"@,
    }
}

/// The greater of two numbers.
pub open spec fn greater(a: nat, b: nat) -> nat {
    if a >= b {
        a
    } else {
        b
    }
}

/// The connection parameters that the sources together give.
pub open spec fn resolved(
    env: AgentEnv,
    credentials: Values,
    file: Values,
    variables: Values,
) -> ConfigView {
    let server = server_of(env, credentials, file);
    let number = |keys: Seq<Seq<char>>, variable: Seq<char>, default: u64, min: u64, max: u64|
        with_fallback(keys, variable, credentials, file, variables, default, min, max);
    let low = number(
        seq!["RECONNECT_MIN_SECS"@, "AGENT_RECONNECT_MIN_SECS"@],
        "AGENT_RECONNECT_MIN_SECS"@,
        1,
        1,
        60,
    );
    let high = number(
        seq!["RECONNECT_MAX_SECS"@, "AGENT_RECONNECT_MAX_SECS"@],
        "AGENT_RECONNECT_MAX_SECS"@,
        10,
        1,
        300,
    );
    ConfigView {
        server,
        data_server: data_address(server, url_with_path(server, "/data"@)),
        token: token_of(env, credentials, file),
        name: or_text(
            first_of(credentials.get("DEVICE_NAME"@), text_view(env.computer_name)),
            "Windows agent"@,
        ),
        data_channels: number(seq!["DATA_CHANNELS"@], "DATA_CHANNELS"@, 2, 1, 8) as u16,
        heartbeat_secs: number(
            seq!["HEARTBEAT_SECS"@, "AGENT_HEARTBEAT_SECS"@],
            "AGENT_HEARTBEAT_SECS"@,
            10,
            3,
            60,
        ) as u64,
        pong_timeout_secs: number(
            seq!["PONG_TIMEOUT_SECS"@, "AGENT_PONG_TIMEOUT_SECS"@],
            "AGENT_PONG_TIMEOUT_SECS"@,
            25,
            5,
            300,
        ) as u64,
        reconnect_min_secs: low as u64,
        reconnect_max_secs: greater(high, low) as u64,
        log_level: level_of(env, credentials, file),
    }
}

fn not_blank(s: Option<String>) -> (r: Option<String>)
    ensures
        text_view(r) == unless_blank(text_view(s)),
{
    match s {
        Some(t) => {
            let inner = trim(t.as_str());
            proof {
                reveal_strlit("");
                if inner@.len() == 0 {
                    assert(inner@ =~= ""@);
                }
            }
            if same_text(inner.as_str(), "") {
                None
            } else {
                Some(t)
            }
        },
        None => None,
    }
}

fn or_else(a: Option<String>, b: Option<String>) -> (r: Option<String>)
    ensures
        text_view(r) == first_of(text_view(a), text_view(b)),
{
    match a {
        Some(t) => Some(t),
        None => b,
    }
}

fn or_default(a: Option<String>, otherwise: &str) -> (r: String)
    ensures
        r@ == or_text(text_view(a), otherwise@),
{
    match a {
        Some(t) => t,
        None => otherwise.to_owned(),
    }
}

/// The value of a key.
fn value_of(values: &KeyValues, key: &str) -> (r: Option<String>)
    requires
        values.wf(),
    ensures
        text_view(r) == values@.get(key@),
{
    values.get(key)
}

/// A number from the credentials or the bootstrap file, else from the variable.
fn number_of(
    keys: &[&str],
    variable: &str,
    credentials: &KeyValues,
    file: &KeyValues,
    variables: &KeyValues,
    default: u64,
    min: u64,
    max: u64,
) -> (r: u64)
    requires
        credentials.wf(),
        file.wf(),
        variables.wf(),
        min <= default <= max,
    ensures
        r == with_fallback(
            key_views(keys@),
            variable@,
            credentials@,
            file@,
            variables@,
            default,
            min,
            max,
        ),
        min <= r <= max,
{
    let names = [variable];
    let last = [variables];
    assert(key_views(names@) =~= seq![variable@]);
    assert(source_views(last@) =~= seq![variables@]);
    let fallback: u64 = pick_num(&names, &last, default, min, max);
    let sources = [credentials, file];
    assert(source_views(sources@) =~= seq![credentials@, file@]);
    proof {
        lemma_picked_range(seq![variable@], seq![variables@], default, min, max);
        lemma_picked_range(key_views(keys@), seq![credentials@, file@], fallback, min, max);
    }
    pick_num(keys, &sources, fallback, min, max)
}

proof fn lemma_fallback_range(
    keys: Seq<Seq<char>>,
    variable: Seq<char>,
    credentials: Values,
    file: Values,
    variables: Values,
    default: u64,
    min: u64,
    max: u64,
)
    requires
        min <= default <= max,
    ensures
        min <= with_fallback(keys, variable, credentials, file, variables, default, min, max) <= max,
{
    lemma_picked_range(seq![variable], seq![variables], default, min, max);
    let fallback = picked(seq![variable], seq![variables], default, min, max) as u64;
    lemma_picked_range(keys, seq![credentials, file], fallback, min, max);
}

proof fn lemma_picked_range(
    keys: Seq<Seq<char>>,
    sources: Seq<Values>,
    default: u64,
    min: u64,
    max: u64,
)
    requires
        min <= default <= max,
    ensures
        min <= picked(keys, sources, default, min, max) <= max,
    decreases keys.len(),
{
    if keys.len() > 0 {
        lemma_among_range(sources, keys.first(), min, max);
        lemma_picked_range(keys.drop_first(), sources, default, min, max);
    }
}

proof fn lemma_among_range(sources: Seq<Values>, key: Seq<char>, min: u64, max: u64)
    ensures
        number_among(sources, key, min, max) matches Some(n) ==> min <= n <= max,
    decreases sources.len(),
{
    if sources.len() > 0 {
        lemma_among_range(sources.drop_first(), key, min, max);
    }
}

impl AgentConfig {
    /// Resolves the connection parameters. For the numbers the environment's
    /// variables are a fallback: they count only where neither the credentials
    /// nor the bootstrap file have one in range.
    pub fn resolve(
        env: AgentEnv,
        credentials: &KeyValues,
        file: &KeyValues,
        variables: &KeyValues,
    ) -> (r: Self)
        requires
            credentials.wf(),
            file.wf(),
            variables.wf(),
        ensures
            r@ == resolved(env, credentials@, file@, variables@),
    {
        let ghost env0 = env;
        let server = or_default(
            or_else(
                or_else(
                    not_blank(env.server_url),
                    not_blank(value_of(credentials, "SERVER_URL")),
                ),
                value_of(file, "TUNNEL_SERVER_URL"),
            ),
            "ws://127.0.0.1:18080/control",
        );
        let token = or_default(
            or_else(
                or_else(not_blank(env.token), value_of(credentials, "TOKEN")),
                value_of(file, "TUNNEL_TOKEN"),
            ),
            "",
        );
        proof {
            reveal_strlit("");
            assert(""@ =~= Seq::<char>::empty());
        }
        let name = or_default(
            or_else(value_of(credentials, "DEVICE_NAME"), env.computer_name),
            "Windows agent",
        );
        let data_server = data_server_url(server.as_str());
        let keys = ["DATA_CHANNELS"];
        assert(key_views(keys@) =~= seq!["DATA_CHANNELS"@]);
        let data_channels: u64 = number_of(
            &keys,
            "DATA_CHANNELS",
            credentials,
            file,
            variables,
            2,
            1,
            8,
        );
        let keys = ["HEARTBEAT_SECS", "AGENT_HEARTBEAT_SECS"];
        assert(key_views(keys@) =~= seq!["HEARTBEAT_SECS"@, "AGENT_HEARTBEAT_SECS"@]);
        let heartbeat_secs: u64 = number_of(
            &keys,
            "AGENT_HEARTBEAT_SECS",
            credentials,
            file,
            variables,
            10,
            3,
            60,
        );
        let keys = ["PONG_TIMEOUT_SECS", "AGENT_PONG_TIMEOUT_SECS"];
        assert(key_views(keys@) =~= seq!["PONG_TIMEOUT_SECS"@, "AGENT_PONG_TIMEOUT_SECS"@]);
        let pong_timeout_secs: u64 = number_of(
            &keys,
            "AGENT_PONG_TIMEOUT_SECS",
            credentials,
            file,
            variables,
            25,
            5,
            300,
        );
        let keys = ["RECONNECT_MIN_SECS", "AGENT_RECONNECT_MIN_SECS"];
        assert(key_views(keys@) =~= seq!["RECONNECT_MIN_SECS"@, "AGENT_RECONNECT_MIN_SECS"@]);
        let reconnect_min_secs: u64 = number_of(
            &keys,
            "AGENT_RECONNECT_MIN_SECS",
            credentials,
            file,
            variables,
            1,
            1,
            60,
        );
        let keys = ["RECONNECT_MAX_SECS", "AGENT_RECONNECT_MAX_SECS"];
        assert(key_views(keys@) =~= seq!["RECONNECT_MAX_SECS"@, "AGENT_RECONNECT_MAX_SECS"@]);
        let most: u64 = number_of(
            &keys,
            "AGENT_RECONNECT_MAX_SECS",
            credentials,
            file,
            variables,
            10,
            1,
            300,
        );
        let reconnect_max_secs: u64 = if most >= reconnect_min_secs {
            most
        } else {
            reconnect_min_secs
        };
        let level = or_else(
            or_else(value_of(credentials, "LOG_LEVEL"), value_of(file, "LOG_LEVEL")),
            env.log_level,
        );
        let log_level = match level {
            Some(level) => {
                if is_log_level(level.as_str()) {
                    level
                } else {
                    "info".to_owned()
                }
            },
            None => "info".to_owned(),
        };
        AgentConfig {
            server,
            data_server,
            token,
            name,
            data_channels: data_channels as u16,
            heartbeat_secs,
            pong_timeout_secs,
            reconnect_min_secs,
            reconnect_max_secs,
            log_level,
        }
    }

    /// The parameters as settings, until the server pushes its own.
    pub fn to_agent_settings(&self) -> (r: AgentSettings)
        ensures
            r.device_name@ == self.name@,
            r.server_url@ == self.server@,
            r.data_channels == self.data_channels,
            r.heartbeat_secs == self.heartbeat_secs,
            r.pong_timeout_secs == self.pong_timeout_secs,
            r.reconnect_min_secs == self.reconnect_min_secs,
            r.reconnect_max_secs == self.reconnect_max_secs,
            r.log_level@ == self.log_level@,
    {
        AgentSettings {
            device_name: self.name.clone(),
            server_url: self.server.clone(),
            data_channels: self.data_channels,
            heartbeat_secs: self.heartbeat_secs,
            pong_timeout_secs: self.pong_timeout_secs,
            reconnect_min_secs: self.reconnect_min_secs,
            reconnect_max_secs: self.reconnect_max_secs,
            log_level: self.log_level.clone(),
        }
    }
}

/// Whatever the sources hold, the numbers are in range, the reconnect bounds
/// are in order, and the log level is one.
pub proof fn resolved_in_range(
    env: AgentEnv,
    credentials: Values,
    file: Values,
    variables: Values,
)
    ensures
        1 <= resolved(env, credentials, file, variables).data_channels <= 8,
        3 <= resolved(env, credentials, file, variables).heartbeat_secs <= 60,
        5 <= resolved(env, credentials, file, variables).pong_timeout_secs <= 300,
        1 <= resolved(env, credentials, file, variables).reconnect_min_secs <= 60,
        1 <= resolved(env, credentials, file, variables).reconnect_max_secs <= 300,
        resolved(env, credentials, file, variables).reconnect_min_secs <= resolved(
            env,
            credentials,
            file,
            variables,
        ).reconnect_max_secs,
        log_level_name(resolved(env, credentials, file, variables).log_level),
{
    lemma_fallback_range(
        seq!["DATA_CHANNELS"@],
        "DATA_CHANNELS"@,
        credentials,
        file,
        variables,
        2,
        1,
        8,
    );
    lemma_fallback_range(
        seq!["HEARTBEAT_SECS"@, "AGENT_HEARTBEAT_SECS"@],
        "AGENT_HEARTBEAT_SECS"@,
        credentials,
        file,
        variables,
        10,
        3,
        60,
    );
    lemma_fallback_range(
        seq!["PONG_TIMEOUT_SECS"@, "AGENT_PONG_TIMEOUT_SECS"@],
        "AGENT_PONG_TIMEOUT_SECS"@,
        credentials,
        file,
        variables,
        25,
        5,
        300,
    );
    lemma_fallback_range(
        seq!["RECONNECT_MIN_SECS"@, "AGENT_RECONNECT_MIN_SECS"@],
        "AGENT_RECONNECT_MIN_SECS"@,
        credentials,
        file,
        variables,
        1,
        1,
        60,
    );
    lemma_fallback_range(
        seq!["RECONNECT_MAX_SECS"@, "AGENT_RECONNECT_MAX_SECS"@],
        "AGENT_RECONNECT_MAX_SECS"@,
        credentials,
        file,
        variables,
        10,
        1,
        300,
    );
}

proof fn lemma_found(
    keys: Seq<Seq<char>>,
    sources: Seq<Values>,
    a: u64,
    b: u64,
    min: u64,
    max: u64,
    i: int,
)
    requires
        0 <= i < keys.len(),
        number_among(sources, keys[i], min, max) is Some,
    ensures
        picked(keys, sources, a, min, max) == picked(keys, sources, b, min, max),
    decreases keys.len(),
{
    if i > 0 {
        lemma_found(keys.drop_first(), sources, a, b, min, max, i - 1);
    }
}

/// The environment's variables never change a number that the credentials or
/// the bootstrap file give in range under any of its keys.
pub proof fn variables_only_fall_back(
    keys: Seq<Seq<char>>,
    variable: Seq<char>,
    credentials: Values,
    file: Values,
    v: Values,
    w: Values,
    default: u64,
    min: u64,
    max: u64,
    i: int,
)
    requires
        0 <= i < keys.len(),
        number_among(seq![credentials, file], keys[i], min, max) is Some,
    ensures
        with_fallback(keys, variable, credentials, file, v, default, min, max) == with_fallback(
            keys,
            variable,
            credentials,
            file,
            w,
            default,
            min,
            max,
        ),
{
    let a = picked(seq![variable], seq![v], default, min, max) as u64;
    let b = picked(seq![variable], seq![w], default, min, max) as u64;
    lemma_found(keys, seq![credentials, file], a, b, min, max, i);
}

proof fn lemma_setting_keys()
    ensures
        "SERVER_URL"@.len() == 10 && "SERVER_URL"@[0] == 'S',
        "DEVICE_NAME"@.len() == 11 && "DEVICE_NAME"@[0] == 'D',
        "DATA_CHANNELS"@.len() == 13 && "DATA_CHANNELS"@[0] == 'D',
        "HEARTBEAT_SECS"@.len() == 14 && "HEARTBEAT_SECS"@[0] == 'H',
        "PONG_TIMEOUT_SECS"@.len() == 17 && "PONG_TIMEOUT_SECS"@[0] == 'P',
        "RECONNECT_MIN_SECS"@.len() == 18 && "RECONNECT_MIN_SECS"@[11] == 'I',
        "RECONNECT_MAX_SECS"@.len() == 18 && "RECONNECT_MAX_SECS"@[11] == 'A',
        "LOG_LEVEL"@.len() == 9 && "LOG_LEVEL"@[0] == 'L',
        "SETTINGS_SYNCED_AT"@.len() == 18 && "SETTINGS_SYNCED_AT"@[11] == 'N',
{
    reveal_strlit("SERVER_URL");
    reveal_strlit("DEVICE_NAME");
    reveal_strlit("DATA_CHANNELS");
    reveal_strlit("HEARTBEAT_SECS");
    reveal_strlit("PONG_TIMEOUT_SECS");
    reveal_strlit("RECONNECT_MIN_SECS");
    reveal_strlit("RECONNECT_MAX_SECS");
    reveal_strlit("LOG_LEVEL");
    reveal_strlit("SETTINGS_SYNCED_AT");
}

/// What pushed settings leave in the credentials.
proof fn lemma_pushed_values(m: Values, s: AgentSettings, unix_secs: u64)
    requires
        s.log_level@.len() > 0,
    ensures
        ({
            let c = merged(m, settings_updates(s, unix_secs));
            &&& c.get("DATA_CHANNELS"@) == Some(dec(s.data_channels as nat))
            &&& c.get("HEARTBEAT_SECS"@) == Some(dec(s.heartbeat_secs as nat))
            &&& c.get("PONG_TIMEOUT_SECS"@) == Some(dec(s.pong_timeout_secs as nat))
            &&& c.get("RECONNECT_MIN_SECS"@) == Some(dec(s.reconnect_min_secs as nat))
            &&& c.get("RECONNECT_MAX_SECS"@) == Some(dec(s.reconnect_max_secs as nat))
            &&& c.get("LOG_LEVEL"@) == Some(s.log_level@)
            &&& s.device_name@.len() > 0 ==> c.get("DEVICE_NAME"@) == Some(s.device_name@)
            &&& s.server_url@.len() > 0 ==> c.get("SERVER_URL"@) == Some(s.server_url@)
            &&& s.server_url@.len() == 0 ==> c.get("SERVER_URL"@) == m.get("SERVER_URL"@)
        }),
{
    lemma_setting_keys();
    let u = settings_updates(s, unix_secs);
    let n: int = if s.server_url@.len() > 0 {
        1
    } else {
        0
    };
    lemma_dec_digits(s.data_channels as nat);
    lemma_dec_digits(s.heartbeat_secs as nat);
    lemma_dec_digits(s.pong_timeout_secs as nat);
    lemma_dec_digits(s.reconnect_min_secs as nat);
    lemma_dec_digits(s.reconnect_max_secs as nat);
    assert(u.len() == n + 8);
    assert(u[n] == ("DEVICE_NAME"@, s.device_name@));
    assert(u[n + 1] == ("DATA_CHANNELS"@, dec(s.data_channels as nat)));
    assert(u[n + 2] == ("HEARTBEAT_SECS"@, dec(s.heartbeat_secs as nat)));
    assert(u[n + 3] == ("PONG_TIMEOUT_SECS"@, dec(s.pong_timeout_secs as nat)));
    assert(u[n + 4] == ("RECONNECT_MIN_SECS"@, dec(s.reconnect_min_secs as nat)));
    assert(u[n + 5] == ("RECONNECT_MAX_SECS"@, dec(s.reconnect_max_secs as nat)));
    assert(u[n + 6] == ("LOG_LEVEL"@, s.log_level@));
    assert(u[n + 7].0 == "SETTINGS_SYNCED_AT"@);
    lemma_last_value_at(u, n);
    lemma_last_value_at(u, n + 1);
    lemma_last_value_at(u, n + 2);
    lemma_last_value_at(u, n + 3);
    lemma_last_value_at(u, n + 4);
    lemma_last_value_at(u, n + 5);
    lemma_last_value_at(u, n + 6);
    if n == 1 {
        assert(u[0] == ("SERVER_URL"@, s.server_url@));
        lemma_last_value_at(u, 0);
    } else {
        lemma_last_value_absent(u, "SERVER_URL"@);
    }
    merge_effect(m, u, "SERVER_URL"@);
    merge_effect(m, u, "DEVICE_NAME"@);
    merge_effect(m, u, "DATA_CHANNELS"@);
    merge_effect(m, u, "HEARTBEAT_SECS"@);
    merge_effect(m, u, "PONG_TIMEOUT_SECS"@);
    merge_effect(m, u, "RECONNECT_MIN_SECS"@);
    merge_effect(m, u, "RECONNECT_MAX_SECS"@);
    merge_effect(m, u, "LOG_LEVEL"@);
}

proof fn lemma_last_value_absent(u: Seq<Pair>, k: Seq<char>)
    requires
        forall|i: int| 0 <= i < u.len() ==> (#[trigger] u[i]).0 != k,
    ensures
        last_value(u, k) is None,
    decreases u.len(),
{
    if u.len() > 0 {
        assert(u[u.len() - 1].0 != k);
        assert forall|i: int| 0 <= i < u.drop_last().len() implies (
        #[trigger] u.drop_last()[i]).0 != k by {
            assert(u[i].0 != k);
        }
        lemma_last_value_absent(u.drop_last(), k);
    }
}

/// Settings whose values the server accepts hold from the next session on:
/// once stored in the credentials, they are what the agent resolves. An upper
/// reconnect bound below the lower one counts as the lower one. A server
/// address in the environment goes first; a pushed one that is empty leaves the
/// address as it was.
pub proof fn pushed_settings_take_effect(
    env: AgentEnv,
    credentials: Values,
    file: Values,
    variables: Values,
    s: AgentSettings,
    unix_secs: u64,
    max_channels: u16,
)
    requires
        values_in_range(settings_view(s), max_channels),
    ensures
        ({
            let stored = merged(credentials, settings_updates(s, unix_secs));
            let r = resolved(env, stored, file, variables);
            &&& r.data_channels == s.data_channels
            &&& r.heartbeat_secs == s.heartbeat_secs
            &&& r.pong_timeout_secs == s.pong_timeout_secs
            &&& r.reconnect_min_secs == s.reconnect_min_secs
            &&& r.reconnect_max_secs == in_order(settings_view(s)).reconnect_max_secs
            &&& r.log_level == s.log_level@
            &&& s.device_name@.len() > 0 ==> r.name == s.device_name@
            &&& s.server_url@.len() == 0 ==> r.server == server_of(env, credentials, file)
            &&& unless_blank(text_view(env.server_url)) is None && trimmed(s.server_url@).len() > 0
                ==> r.server == s.server_url@
        }),
{
    reveal_strlit("error");
    reveal_strlit("warn");
    reveal_strlit("info");
    reveal_strlit("debug");
    reveal_strlit("trace");
    lemma_pushed_values(credentials, s, unix_secs);
    let stored = merged(credentials, settings_updates(s, unix_secs));
    let sources = seq![stored, file];
    assert(sources.first() == stored);
    number_round_trip(s.data_channels as nat, u64::MAX as nat);
    number_round_trip(s.heartbeat_secs as nat, u64::MAX as nat);
    number_round_trip(s.pong_timeout_secs as nat, u64::MAX as nat);
    number_round_trip(s.reconnect_min_secs as nat, u64::MAX as nat);
    number_round_trip(s.reconnect_max_secs as nat, u64::MAX as nat);
    assert(number_among(sources, "DATA_CHANNELS"@, 1, 8) == Some(s.data_channels as nat));
    assert(number_among(sources, "HEARTBEAT_SECS"@, 3, 60) == Some(s.heartbeat_secs as nat));
    assert(number_among(sources, "PONG_TIMEOUT_SECS"@, 5, 300) == Some(
        s.pong_timeout_secs as nat,
    ));
    assert(number_among(sources, "RECONNECT_MIN_SECS"@, 1, 60) == Some(
        s.reconnect_min_secs as nat,
    ));
    assert(number_among(sources, "RECONNECT_MAX_SECS"@, 1, 300) == Some(
        s.reconnect_max_secs as nat,
    ));
    assert(seq!["DATA_CHANNELS"@].first() == "DATA_CHANNELS"@);
    assert(seq!["HEARTBEAT_SECS"@, "AGENT_HEARTBEAT_SECS"@].first() == "HEARTBEAT_SECS"@);
    assert(seq!["PONG_TIMEOUT_SECS"@, "AGENT_PONG_TIMEOUT_SECS"@].first()
        == "PONG_TIMEOUT_SECS"@);
    assert(seq!["RECONNECT_MIN_SECS"@, "AGENT_RECONNECT_MIN_SECS"@].first()
        == "RECONNECT_MIN_SECS"@);
    assert(seq!["RECONNECT_MAX_SECS"@, "AGENT_RECONNECT_MAX_SECS"@].first()
        == "RECONNECT_MAX_SECS"@);
}

/// A token that was stored takes effect: from the next start on it is the one
/// that the agent registers with, unless the environment gives another. The
/// enrollment code is used up with it, and nothing else in the credentials
/// changes.
pub proof fn stored_token_takes_effect(
    env: AgentEnv,
    credentials: Values,
    file: Values,
    variables: Values,
    token: Seq<char>,
    key: Seq<char>,
)
    requires
        token.len() > 0,
    ensures
        ({
            let stored = merged(credentials, token_updates(token));
            let r = resolved(env, stored, file, variables);
            &&& unless_blank(text_view(env.token)) is None ==> r.token == token
            &&& stored.get("ENROLL_CODE"@) is None
            &&& key != "TOKEN"@ && key != "ENROLL_CODE"@ ==> stored.get(key) == credentials.get(key)
        }),
{
    lemma_token_updates(token);
    merge_effect(credentials, token_updates(token), "TOKEN"@);
    merge_effect(credentials, token_updates(token), "ENROLL_CODE"@);
    merge_effect(credentials, token_updates(token), key);
    reveal_strlit("");
    if key != "TOKEN"@ && key != "ENROLL_CODE"@ {
        let u = token_updates(token);
        assert forall|i: int| 0 <= i < u.len() implies (#[trigger] u[i]).0 != key by {
            assert(i == 0 || i == 1);
        }
        lemma_last_value_absent(u, key);
    }
}

/// Who names the token, first to last: the environment, unless it is blank
/// there, then the credentials, then the bootstrap file. Where nobody does, it
/// is empty.
pub proof fn token_by_priority(
    env: AgentEnv,
    credentials: Values,
    file: Values,
    variables: Values,
)
    ensures
        ({
            let r = resolved(env, credentials, file, variables);
            let named = env.token is Some && trimmed(env.token->0@).len() > 0;
            &&& named ==> r.token == env.token->0@
            &&& !named && credentials.contains_key("TOKEN"@) ==> r.token == credentials["TOKEN"@]
            &&& !named && !credentials.contains_key("TOKEN"@) && file.contains_key("TUNNEL_TOKEN"@)
                ==> r.token == file["TUNNEL_TOKEN"@]
            &&& !named && !credentials.contains_key("TOKEN"@) && !file.contains_key(
                "TUNNEL_TOKEN"@,
            ) ==> r.token.len() == 0
        }),
{
}

/// Who names the server, first to last: the environment, then the credentials,
/// unless it is blank there, then the bootstrap file. Where nobody does, it is
/// the local one.
pub proof fn server_by_priority(
    env: AgentEnv,
    credentials: Values,
    file: Values,
    variables: Values,
)
    ensures
        ({
            let r = resolved(env, credentials, file, variables);
            let named = env.server_url is Some && trimmed(env.server_url->0@).len() > 0;
            let stored = credentials.contains_key("SERVER_URL"@) && trimmed(
                credentials["SERVER_URL"@],
            ).len() > 0;
            &&& named ==> r.server == env.server_url->0@
            &&& !named && stored ==> r.server == credentials["SERVER_URL"@]
            &&& !named && !stored && file.contains_key("TUNNEL_SERVER_URL"@) ==> r.server
                == file["TUNNEL_SERVER_URL"@]
            &&& !named && !stored && !file.contains_key("TUNNEL_SERVER_URL"@) ==> r.server
                == "ws://127.0.0.1:18080/control"@
        }),
{
}

/// Who names the device, first to last: the credentials, then the machine. And
/// who names the log level: the credentials, then the bootstrap file, then the
/// environment; what is no level counts as the usual one.
pub proof fn name_and_level_by_priority(
    env: AgentEnv,
    credentials: Values,
    file: Values,
    variables: Values,
    level: Seq<char>,
)
    requires
        level == if credentials.contains_key("LOG_LEVEL"@) {
            credentials["LOG_LEVEL"@]
        } else if file.contains_key("LOG_LEVEL"@) {
            file["LOG_LEVEL"@]
        } else if env.log_level is Some {
            env.log_level->0@
        } else {
            "info"@
        },
    ensures
        ({
            let r = resolved(env, credentials, file, variables);
            &&& credentials.contains_key("DEVICE_NAME"@) ==> r.name == credentials["DEVICE_NAME"@]
            &&& !credentials.contains_key("DEVICE_NAME"@) && env.computer_name is Some ==> r.name
                == env.computer_name->0@
            &&& !credentials.contains_key("DEVICE_NAME"@) && env.computer_name is None ==> r.name
                == "Windows agent"@
            &&& log_level_name(level) ==> r.log_level == level
            &&& !log_level_name(level) ==> r.log_level == "info"@
        }),
{
}

/// A number that the credentials give in range under its first key is taken;
/// where they give none, one that the bootstrap file gives there; where neither
/// does under any key, one that the environment gives under its name for it;
/// and else the default. One out of range counts as none.
pub proof fn numbers_by_priority(
    keys: Seq<Seq<char>>,
    variable: Seq<char>,
    credentials: Values,
    file: Values,
    variables: Values,
    default: u64,
    min: u64,
    max: u64,
    n: u64,
)
    requires
        keys.len() > 0,
        min <= n <= max,
    ensures
        ({
            let taken = with_fallback(
                keys,
                variable,
                credentials,
                file,
                variables,
                default,
                min,
                max,
            );
            let silent = |m: Values, k: Seq<char>|
                !m.contains_key(k) || unsigned_value(m[k], u64::MAX as nat) is None || !(min
                    <= unsigned_value(m[k], u64::MAX as nat)->0 <= max);
            &&& credentials.get(keys[0]) == Some(dec(n as nat)) ==> taken == n
            &&& silent(credentials, keys[0]) && file.get(keys[0]) == Some(dec(n as nat)) ==> taken
                == n
            &&& (forall|i: int|
                0 <= i < keys.len() ==> silent(credentials, #[trigger] keys[i]) && silent(
                    file,
                    keys[i],
                )) && variables.get(variable) == Some(dec(n as nat)) ==> taken == n
            &&& (forall|i: int|
                0 <= i < keys.len() ==> silent(credentials, #[trigger] keys[i]) && silent(
                    file,
                    keys[i],
                )) && silent(variables, variable) ==> taken == default
        }),
{
    number_round_trip(n as nat, u64::MAX as nat);
    let two = seq![credentials, file];
    let one = seq![variables];
    assert(two.first() == credentials && two.drop_first() =~= seq![file]);
    assert(seq![file].first() == file && seq![file].drop_first() =~= Seq::<Values>::empty());
    assert(one.first() == variables && one.drop_first() =~= Seq::<Values>::empty());
    reveal_with_fuel(number_among, 3);
    reveal_with_fuel(picked, 3);
    assert(seq![variable].first() == variable);
    assert(seq![variable].drop_first() =~= Seq::<Seq<char>>::empty());
    assert(keys.first() == keys[0]);
    let fallback = picked(seq![variable], one, default, min, max) as u64;
    if forall|i: int|
        0 <= i < keys.len() ==> number_in(credentials, #[trigger] keys[i], min, max) is None
            && number_in(file, keys[i], min, max) is None {
        lemma_none_found(keys, two, fallback, min, max);
    }
}

proof fn lemma_none_found(
    keys: Seq<Seq<char>>,
    sources: Seq<Values>,
    default: u64,
    min: u64,
    max: u64,
)
    requires
        sources.len() == 2,
        forall|i: int|
            0 <= i < keys.len() ==> number_in(sources[0], #[trigger] keys[i], min, max) is None
                && number_in(sources[1], keys[i], min, max) is None,
    ensures
        picked(keys, sources, default, min, max) == default,
    decreases keys.len(),
{
    reveal_with_fuel(number_among, 3);
    if keys.len() > 0 {
        let rest = keys.drop_first();
        assert forall|i: int| 0 <= i < rest.len() implies number_in(
            sources[0],
            #[trigger] rest[i],
            min,
            max,
        ) is None && number_in(sources[1], rest[i], min, max) is None by {
            assert(rest[i] == keys[i + 1]);
        }
        lemma_none_found(rest, sources, default, min, max);
        assert(keys.first() == keys[0]);
        assert(sources.first() == sources[0]);
        assert(sources.drop_first().first() == sources[1]);
        assert(sources.drop_first().drop_first().len() == 0);
    }
}

/// An address that is no URL has its data sockets under `/data`, however many
/// slashes it ends with; for a URL, what the URL with that path reads is taken.
pub proof fn data_sockets_beside_control(server: Seq<char>, url: Seq<char>, n: nat)
    requires
        server.len() > 0 ==> server.last() != '/',
    ensures
        data_address(server + Seq::new(n, |i: int| '/'), None) == server + "/data"@,
        data_address(server, Some(url)) == url,
    decreases n,
{
    let s = server + Seq::new(n, |i: int| '/');
    if n == 0 {
        assert(s =~= server);
    } else {
        let m = (n - 1) as nat;
        data_sockets_beside_control(server, url, m);
        assert(s.last() == '/');
        assert(s.drop_last() =~= server + Seq::new(m, |i: int| '/'));
    }
}

} // verus!
