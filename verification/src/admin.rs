//! The rules of the management interface: who may use it, what it accepts, and
//! how it answers.

use serde::ser::SerializeMap;
use vstd::prelude::*;
use vstd::utf8::encode_utf8;

use crate::agent_config::text_view;
use crate::api::{
    refusal_of, refuse, ApiError, CONFLICT, FORBIDDEN, INTERNAL_SERVER_ERROR, NOT_FOUND,
    UNAUTHORIZED, UNPROCESSABLE_ENTITY,
};
use crate::ids::{id_text, parse_id, parsed_uuid, uuid_text};
use crate::number::{dec, decimal, parse_i64, signed_reads_sign, signed_value};
use crate::protocol::{TunnelKind, TunnelSpec};
use crate::settings::{settings_error, AgentDefaults, SettingsView};
use crate::text::{
    chars_of, has_prefix, same_text, starts_with, text_of, trim, trimmed, trimming_cuts_ends,
    white_space,
};

verus! {

/// The last second of Unix time that a date can name.
pub const LAST_SECOND: i64 = 8_210_266_876_799;

/// Characters that a name or a label may have at most.
pub const NAME_MAX: usize = 100;

/// Bytes that a password may have at most to be hashed.
pub const PASSWORD_BYTES_MAX: u64 = 4_294_967_295;

/// The token in an authorization header.
pub open spec fn bearer_of(header: Option<Seq<char>>) -> Option<Seq<char>> {
    match header {
        Some(h) => if has_prefix(h, "Bearer "@) {
            Some(h.skip(7))
        } else {
            None
        },
        None => None,
    }
}

/// Reads the token in an authorization header.
pub fn bearer(header: Option<&str>) -> (r: Option<String>)
    ensures
        match r {
            Some(t) => bearer_of(
                match header {
                    Some(h) => Some(h@),
                    None => None,
                },
            ) == Some(t@),
            None => bearer_of(
                match header {
                    Some(h) => Some(h@),
                    None => None,
                },
            ) is None,
        },
{
    match header {
        None => None,
        Some(h) => {
            if !starts_with(h, "Bearer ") {
                return None;
            }
            let chars = chars_of(h);
            proof {
                reveal_strlit("Bearer ");
            }
            let token = text_of(chars.as_slice(), 7, chars.len());
            assert(token@ =~= h@.skip(7));
            Some(token)
        },
    }
}

/// Who a signed token names: their id and their role.
#[derive(Debug, PartialEq, Eq)]
pub struct Claims {
    pub sub: String,
    pub role: String,
    pub exp: u64,
}

impl View for Claims {
    type V = (Seq<char>, Seq<char>, u64);

    open spec fn view(&self) -> (Seq<char>, Seq<char>, u64) {
        (self.sub@, self.role@, self.exp)
    }
}

/// Who claims let in, given by their subject, role and expiry: administrators.
pub open spec fn authorized(claims: Option<(Seq<char>, Seq<char>, u64)>) -> Result<u128, u16> {
    match claims {
        None => Err(UNAUTHORIZED),
        Some((sub, role, exp)) => if role != "admin"@ {
            Err(FORBIDDEN)
        } else {
            match parsed_uuid(sub) {
                Some(id) => Ok(id),
                None => Err(UNAUTHORIZED),
            }
        },
    }
}

/// Lets administrators in, by the claims of a token whose signature and expiry
/// were found good, if they were.
pub fn authorize(claims: Option<&Claims>) -> (r: Result<u128, u16>)
    ensures
        r == authorized(
            match claims {
                Some(c) => Some(c@),
                None => None,
            },
        ),
        claims matches Some(c) ==> forall|id: u128|
            c.role@ == "admin"@ && c.sub@ == #[trigger] uuid_text(id) ==> r == Ok::<u128, u16>(id),
{
    match claims {
        None => Err(UNAUTHORIZED),
        Some(c) => {
            if !same_text(c.role.as_str(), "admin") {
                return Err(FORBIDDEN);
            }
            match parse_id(c.sub.as_str()) {
                Some(id) => Ok(id),
                None => Err(UNAUTHORIZED),
            }
        },
    }
}

/// The token that `jsonwebtoken::encode` makes of claims and a secret, with its
/// default header.
pub uninterp spec fn signed_token(
    sub: Seq<char>,
    role: Seq<char>,
    exp: u64,
    secret: Seq<char>,
) -> Option<Seq<char>>;

/// Signs claims by `jsonwebtoken::encode` with its default header and the
/// secret. `serde_json` writes the claims as an object with the members `sub`,
/// `role` and `exp`, in this order. What the token looks like is left to these
/// functions.
#[verifier::external_body]
fn sign_claims(claims: &Claims, secret: &str) -> (r: Option<String>)
    ensures
        text_view(r) == signed_token(claims.sub@, claims.role@, claims.exp, secret@),
{
    let mut json = serde_json::Serializer::new(Vec::new());
    let mut body = serde::Serializer::serialize_map(&mut json, Some(3)).ok()?;
    body.serialize_entry("sub", &claims.sub).ok()?;
    body.serialize_entry("role", &claims.role).ok()?;
    body.serialize_entry("exp", &claims.exp).ok()?;
    body.end().ok()?;
    let text = String::from_utf8(json.into_inner()).ok()?;
    let body = serde_json::value::RawValue::from_string(text).ok()?;
    let key = jsonwebtoken::EncodingKey::from_secret(secret.as_bytes());
    jsonwebtoken::encode(&jsonwebtoken::Header::default(), &body, &key).ok()
}

/// The claims that `jsonwebtoken::decode` finds in a token under a secret, with
/// its default rules, as long as it finds them not expired: their subject, role
/// and expiry.
pub uninterp spec fn token_claims(token: Seq<char>, secret: Seq<char>) -> Option<
    (Seq<char>, Seq<char>, u64),
>;

/// Whether claims are those that a token was made of, if it was made of any
/// under the secret.
pub open spec fn speaks_for(
    claims: (Seq<char>, Seq<char>, u64),
    token: Seq<char>,
    secret: Seq<char>,
) -> bool {
    forall|sub: Seq<char>, role: Seq<char>, exp: u64| #[trigger]
        signed_token(sub, role, exp, secret) == Some(token) ==> claims == (sub, role, exp)
}

/// Reads the claims of a token by `jsonwebtoken::decode` with its default
/// rules, which check the signature under the secret and the expiry. What it
/// finds depends on the token and the secret alone, and is what the token was
/// made of, if it was made under the secret. Whether it accepts a token also
/// depends on the time. Which foreign texts it accepts is left open; of a member
/// that such a text repeats, the last counts.
#[verifier::external_body]
fn read_claims(token: &str, secret: &str) -> (r: Option<Claims>)
    ensures
        r matches Some(c) ==> token_claims(token@, secret@) == Some(c@),
        r matches Some(c) ==> speaks_for(c@, token@, secret@),
{
    let key = jsonwebtoken::DecodingKey::from_secret(secret.as_bytes());
    let rules = jsonwebtoken::Validation::default();
    let claims = jsonwebtoken::decode::<serde_json::Value>(token, &key, &rules).ok()?.claims;
    Some(
        Claims {
            sub: claims.get("sub")?.as_str()?.to_owned(),
            role: claims.get("role")?.as_str()?.to_owned(),
            exp: claims.get("exp")?.as_u64()?,
        },
    )
}

/// Lets administrators in, by the authorization header of a request: without a
/// token nobody, else whom the claims of the token let in, or nobody once they
/// have expired. A token that was made for an administrator lets in that one or
/// nobody.
pub fn admin_of(header: Option<&str>, secret: &str) -> (r: Result<u128, u16>)
    ensures
        match bearer_of(
            match header {
                Some(h) => Some(h@),
                None => None,
            },
        ) {
            None => r == Err::<u128, u16>(UNAUTHORIZED),
            Some(token) => r == authorized(token_claims(token, secret@)) || r == Err::<u128, u16>(
                UNAUTHORIZED,
            ),
        },
        header matches Some(h) ==> forall|id: u128, exp: u64|
            bearer_of(Some(h@)) is Some && #[trigger] signed_token(
                uuid_text(id),
                "admin"@,
                exp,
                secret@,
            ) == bearer_of(Some(h@)) ==> r == Ok::<u128, u16>(id) || r == Err::<u128, u16>(
                UNAUTHORIZED,
            ),
{
    match bearer(header) {
        None => Err(UNAUTHORIZED),
        Some(token) => {
            let claims = read_claims(token.as_str(), secret);
            authorize(claims.as_ref())
        },
    }
}

/// The token that an administrator works with until the claims expire.
pub fn issue_token(claims: &Claims, secret: &str) -> (r: Result<String, u16>)
    ensures
        match signed_token(claims.sub@, claims.role@, claims.exp, secret@) {
            Some(text) => r matches Ok(token) && token@ == text,
            None => r == Err::<String, u16>(INTERNAL_SERVER_ERROR),
        },
{
    match sign_claims(claims, secret) {
        Some(token) => Ok(token),
        None => Err(INTERNAL_SERVER_ERROR),
    }
}

/// Whether `argon2::Argon2`, with its default parameters, finds a password to
/// be the one behind a stored hash.
pub uninterp spec fn password_fits(hash: Seq<char>, password: Seq<char>) -> bool;

/// Checks a password against a stored hash: `argon2::PasswordHash::new` reads
/// the hash, and `argon2::PasswordVerifier::verify_password` computes it again
/// from the password. A hash that cannot be read fits no password. Which pairs
/// fit is left to these functions.
#[verifier::external_body]
fn verify_password(hash: &str, password: &str) -> (r: bool)
    ensures
        r == password_fits(hash@, password@),
{
    match argon2::PasswordHash::new(hash) {
        Ok(parsed) => argon2::PasswordVerifier::verify_password(
            &argon2::Argon2::default(),
            password.as_bytes(),
            &parsed,
        ).is_ok(),
        Err(_) => false,
    }
}

/// Whether a result is that of hashing a password: a hash that the password
/// fits or, of a password with more bytes than can be hashed, a refusal.
pub open spec fn hashed(r: Result<String, String>, password: Seq<char>) -> bool {
    match r {
        Ok(hash) => encode_utf8(password).len() <= PASSWORD_BYTES_MAX && password_fits(
            hash@,
            password,
        ),
        Err(text) => encode_utf8(password).len() > PASSWORD_BYTES_MAX && text@
            == "invalid password"@,
    }
}

/// The hash of a password under a random salt, by
/// `argon2::PasswordHasher::hash_password` with its default parameters. Under
/// these, and with a salt from `SaltString::generate`, hashing fails exactly
/// for a password over 4294967295 bytes. The password fits its hash; the text
/// is otherwise open, as the salt in it is random.
#[verifier::external_body]
fn hash_with_salt(password: &str) -> (r: Result<String, String>)
    ensures
        hashed(r, password@),
{
    let salt = argon2::password_hash::SaltString::generate(&mut rand_core::OsRng);
    match argon2::PasswordHasher::hash_password(
        &argon2::Argon2::default(),
        password.as_bytes(),
        &salt,
    ) {
        Ok(hash) => Ok(hash.to_string()),
        Err(error) => Err(error.to_string()),
    }
}

/// The hash that a password is stored under. Only a password with more bytes
/// than can be hashed has none.
pub fn password_hash(password: &str) -> (r: Result<String, String>)
    ensures
        hashed(r, password@),
{
    hash_with_salt(password)
}

/// Whether the first administrator is created: only where an address and a
/// password are given and there is no administrator.
pub fn bootstrap_due(email: Option<&str>, password: Option<&str>, admins: i64) -> (r: bool)
    ensures
        r == match (email, password) {
            (Some(e), Some(p)) => trimmed(e@).len() > 0 && p@.len() > 0 && admins <= 0,
            _ => false,
        },
        r == bootstraps(
            match email {
                Some(e) => Some(e@),
                None => None,
            },
            match password {
                Some(p) => Some(p@),
                None => None,
            },
            admins,
        ),
{
    match (email, password) {
        (Some(e), Some(p)) => {
            let inner = trim(e);
            let address = chars_of(inner.as_str());
            let letters = chars_of(p);
            address.len() > 0 && letters.len() > 0 && admins <= 0
        },
        _ => false,
    }
}

/// A stored user.
#[derive(Debug, PartialEq, Eq)]
pub struct UserRow {
    pub id: u128,
    pub password_hash: String,
    pub role: String,
}

/// Whether claims are those of a user from a time on.
pub open spec fn claims_for(c: Claims, user: UserRow, now_secs: i64, ttl_hours: i64) -> bool {
    c.sub@ == uuid_text(user.id) && c.role@ == user.role@ && c.exp == now_secs + ttl_hours * 3600
}

/// Whether a session that starts at a time expires at one that a date can name.
pub open spec fn expiry_in_range(now_secs: i64, ttl_hours: i64) -> bool {
    0 <= now_secs && 0 <= ttl_hours && now_secs + ttl_hours * 3600 <= LAST_SECOND
}

/// Whether the password is that of the user who is stored under the address,
/// if there is one.
pub fn password_valid(user: Option<&UserRow>, password: &str) -> (r: bool)
    ensures
        r == (user matches Some(u) && password_fits(u.password_hash@, password@)),
{
    match user {
        Some(u) => verify_password(u.password_hash.as_str(), password),
        None => false,
    }
}

/// Signs a user in whose password was checked. Only then there is an expiry.
pub fn login_checked(
    user: Option<&UserRow>,
    valid: bool,
    now_secs: i64,
    ttl_hours: i64,
) -> (r: Result<Claims, u16>)
    requires
        user is Some && valid ==> expiry_in_range(now_secs, ttl_hours),
    ensures
        match user {
            Some(u) => if valid {
                r matches Ok(c) && claims_for(c, *u, now_secs, ttl_hours)
            } else {
                r == Err::<Claims, u16>(UNAUTHORIZED)
            },
            None => r == Err::<Claims, u16>(UNAUTHORIZED),
        },
{
    match user {
        None => Err(UNAUTHORIZED),
        Some(u) => {
            if !valid {
                return Err(UNAUTHORIZED);
            }
            let exp: u64 = now_secs as u64 + ttl_hours as u64 * 3600;
            Ok(Claims { sub: id_text(u.id), role: u.role.clone(), exp })
        },
    }
}

/// Signs a user in by the password: what is stored under the address, if
/// anything.
pub fn login(user: Option<&UserRow>, password: &str, now_secs: i64, ttl_hours: i64) -> (r: Result<
    Claims,
    u16,
>)
    requires
        user is Some ==> expiry_in_range(now_secs, ttl_hours),
    ensures
        match user {
            Some(u) => if password_fits(u.password_hash@, password@) {
                r matches Ok(c) && claims_for(c, *u, now_secs, ttl_hours)
            } else {
                r == Err::<Claims, u16>(UNAUTHORIZED)
            },
            None => r == Err::<Claims, u16>(UNAUTHORIZED),
        },
{
    let valid = password_valid(user, password);
    login_checked(user, valid, now_secs, ttl_hours)
}

/// A token that was issued to a user speaks for that user alone: whoever shows
/// it is taken for them, in their role and until the same expiry, and is
/// refused where that role is not the administrator's.
pub proof fn issued_token_names_user(
    issued: Claims,
    user: UserRow,
    now_secs: i64,
    ttl_hours: i64,
    token: Seq<char>,
    secret: Seq<char>,
    shown: Claims,
)
    requires
        claims_for(issued, user, now_secs, ttl_hours),
        signed_token(issued.sub@, issued.role@, issued.exp, secret) == Some(token),
        speaks_for(shown@, token, secret),
    ensures
        claims_for(shown, user, now_secs, ttl_hours),
        user.role@ != "admin"@ ==> authorized(Some(shown@)) == Err::<u128, u16>(FORBIDDEN),
{
}

/// The word for a kind of tunnel.
pub open spec fn kind_text(kind: TunnelKind) -> Seq<char> {
    match kind {
        TunnelKind::Tcp => "tcp"@,
        TunnelKind::Http => "http"@,
        TunnelKind::Udp => "udp"@,
    }
}

/// The kind of tunnel that a word stands for; any other word counts as TCP.
pub open spec fn kind_named(s: Seq<char>) -> TunnelKind {
    if s == "udp"@ {
        TunnelKind::Udp
    } else if s == "http"@ {
        TunnelKind::Http
    } else {
        TunnelKind::Tcp
    }
}

/// The word for a kind of tunnel.
pub fn kind_str(kind: TunnelKind) -> (r: String)
    ensures
        r@ == kind_text(kind),
{
    match kind {
        TunnelKind::Tcp => "tcp".to_owned(),
        TunnelKind::Http => "http".to_owned(),
        TunnelKind::Udp => "udp".to_owned(),
    }
}

/// The kind of tunnel that a word stands for.
pub fn kind_of(s: &str) -> (r: TunnelKind)
    ensures
        r == kind_named(s@),
{
    if same_text(s, "udp") {
        TunnelKind::Udp
    } else if same_text(s, "http") {
        TunnelKind::Http
    } else {
        TunnelKind::Tcp
    }
}

/// A kind of tunnel is read back from its word.
pub proof fn kind_round_trip(kind: TunnelKind)
    ensures
        kind_named(kind_text(kind)) == kind,
{
    reveal_strlit("tcp");
    reveal_strlit("http");
    reveal_strlit("udp");
    assert("tcp"@[0] == 't' && "http"@[0] == 'h' && "udp"@[0] == 'u');
}

/// The low 16 bits of a stored number.
pub open spec fn low_bits(n: i32) -> int {
    n as int % 65536
}

/// The low 16 bits of a stored number.
pub fn stored_u16(n: i32) -> (r: u16)
    ensures
        r == low_bits(n),
        0 <= n <= u16::MAX ==> r == n,
{
    ((n as i64 + 2147483648) % 65536) as u16
}

/// The number of connections that a stored limit allows. A negative one stands
/// for the number that wraps round to it.
pub fn connection_limit(n: i32) -> (r: usize)
    ensures
        r == if n >= 0 {
            n as int
        } else {
            usize::MAX + 1 + n
        },
        r == limit_for(n),
{
    if n >= 0 {
        n as usize
    } else {
        usize::MAX - (-(n + 1)) as usize
    }
}

/// A stored tunnel.
pub struct TunnelRow {
    pub id: u128,
    pub name: String,
    pub kind: String,
    pub public_port: i32,
    pub local_host: String,
    pub local_port: i32,
    pub enabled: bool,
    pub max_connections: i32,
}

/// Whether a tunnel is what an agent is told of a stored one.
pub open spec fn specified(row: TunnelRow, t: TunnelSpec) -> bool {
    &&& t.id@ == uuid_text(row.id)
    &&& t.name@ == row.name@
    &&& t.kind == kind_named(row.kind@)
    &&& t.public_port == low_bits(row.public_port)
    &&& t.local_host@ == row.local_host@
    &&& t.local_port == low_bits(row.local_port)
    &&& t.enabled == row.enabled
    &&& t.max_connections == low_bits(row.max_connections)
}

/// What an agent is told of stored tunnels.
pub fn tunnel_specs(rows: &Vec<TunnelRow>) -> (r: Vec<TunnelSpec>)
    ensures
        r@.len() == rows@.len(),
        forall|i: int| 0 <= i < r@.len() ==> specified(rows@[i], #[trigger] r@[i]),
{
    let mut out: Vec<TunnelSpec> = Vec::new();
    let mut i: usize = 0;
    while i < rows.len()
        invariant
            i <= rows@.len(),
            out@.len() == i,
            forall|j: int| 0 <= j < i ==> specified(rows@[j], #[trigger] out@[j]),
        decreases rows@.len() - i,
    {
        let row = &rows[i];
        out.push(
            TunnelSpec {
                id: id_text(row.id),
                name: row.name.clone(),
                kind: kind_of(row.kind.as_str()),
                public_port: stored_u16(row.public_port),
                local_host: row.local_host.clone(),
                local_port: stored_u16(row.local_port),
                enabled: row.enabled,
                max_connections: stored_u16(row.max_connections),
            },
        );
        i += 1;
    }
    out
}

/// The numbers and words that a tunnel is stored with.
#[derive(Debug, PartialEq, Eq)]
pub struct StoredTunnel {
    pub kind: String,
    pub public_port: i32,
    pub local_port: i32,
    pub max_connections: i32,
}

/// The refusal of a public port.
pub open spec fn port_refusal(port: u16, start: u16, end: u16) -> Option<(u16, Seq<char>)> {
    if start <= port <= end {
        None
    } else {
        Some(
            (
                UNPROCESSABLE_ENTITY,
                "Public port must be between "@ + dec(start as nat) + " and "@ + dec(end as nat),
            ),
        )
    }
}

/// Checks that a public port is one of the server's.
pub fn check_port(port: u16, start: u16, end: u16) -> (r: Result<(), ApiError>)
    ensures
        refusal_of(r) == port_refusal(port, start, end),
{
    if port < start || port > end {
        let mut text = "Public port must be between ".to_owned();
        text.append(decimal(start as u128).as_str());
        text.append(" and ");
        text.append(decimal(end as u128).as_str());
        return Err(ApiError { status: UNPROCESSABLE_ENTITY, text });
    }
    Ok(())
}

/// What is stored of a tunnel, with a limit of connections where none is given.
pub fn stored_tunnel(
    kind: TunnelKind,
    public_port: u16,
    local_port: u16,
    max_connections: Option<u16>,
    default_max: u16,
) -> (r: StoredTunnel)
    ensures
        r.kind@ == kind_text(kind),
        r.public_port == public_port,
        r.local_port == local_port,
        r.max_connections == match max_connections {
            Some(n) => n,
            None => default_max,
        },
        stores(r, kind, public_port, local_port, max_connections, default_max),
{
    StoredTunnel {
        kind: kind_str(kind),
        public_port: public_port as i32,
        local_port: local_port as i32,
        max_connections: match max_connections {
            Some(n) => n as i32,
            None => default_max as i32,
        },
    }
}

/// A limit of connections that a tunnel has where none is given.
pub const DEFAULT_MAX_CONNECTIONS: u16 = 100;

/// Whether a name has 1 to 100 characters.
pub open spec fn name_fits(s: Seq<char>) -> bool {
    1 <= s.len() <= NAME_MAX
}

fn check_name(name: &str) -> (r: bool)
    ensures
        r == name_fits(name@),
{
    let chars = chars_of(name);
    1 <= chars.len() && chars.len() <= NAME_MAX
}

/// The name of a device after an update: the given one, or the one it has.
/// Says also whether it is a new one.
pub fn device_name(given: Option<&str>, current: &str) -> (r: Result<(String, bool), ApiError>)
    ensures
        match given {
            None => r matches Ok((name, false)) && name@ == current@,
            Some(g) => if name_fits(trimmed(g@)) {
                r matches Ok((name, true)) && name@ == trimmed(g@)
            } else {
                refusal_of(r) == Some(
                    (
                        UNPROCESSABLE_ENTITY,
                        "Device name must be between 1 and 100 characters"@,
                    ),
                )
            },
        },
        match renamed(
            match given {
                Some(g) => Some(g@),
                None => None,
            },
            current@,
        ) {
            Some((name, changed)) => r matches Ok((n, c)) && n@ == name && c == changed,
            None => r is Err,
        },
{
    match given {
        None => Ok((current.to_owned(), false)),
        Some(g) => {
            let name = trim(g);
            if !check_name(name.as_str()) {
                return Err(
                    refuse(
                        UNPROCESSABLE_ENTITY,
                        "Device name must be between 1 and 100 characters",
                    ),
                );
            }
            Ok((name, true))
        },
    }
}

/// The refusal of a label.
pub open spec fn label_refusal(label: Seq<char>) -> Option<(u16, Seq<char>)> {
    if name_fits(label) {
        None
    } else {
        Some((UNPROCESSABLE_ENTITY, "Label must be between 1 and 100 characters"@))
    }
}

/// Checks a new access key: its label, then how many days it lasts. The result
/// is the label to store.
pub fn plan_key(label: &str, expires_in_days: Option<i64>) -> (r: Result<String, ApiError>)
    ensures
        if label_refusal(trimmed(label@)) is Some {
            refusal_of(r) == label_refusal(trimmed(label@))
        } else if expires_in_days matches Some(days) && days < 1 {
            refusal_of(r) == Some((UNPROCESSABLE_ENTITY, "expires_in_days must be at least 1"@))
        } else {
            r matches Ok(text) && text@ == trimmed(label@)
        },
        match key_label(label@, expires_in_days) {
            Some(text) => r matches Ok(l) && l@ == text,
            None => r is Err,
        },
{
    let label = trim(label);
    if !check_name(label.as_str()) {
        return Err(refuse(UNPROCESSABLE_ENTITY, "Label must be between 1 and 100 characters"));
    }
    match expires_in_days {
        Some(days) => {
            if days < 1 {
                return Err(refuse(UNPROCESSABLE_ENTITY, "expires_in_days must be at least 1"));
            }
        },
        None => {},
    }
    Ok(label)
}

/// Plans the update of an access key: its label, and the device that it is
/// bound to. Without a label or a binding those in place stay; a binding to
/// none unbinds.
pub fn plan_key_update(
    label: Option<&str>,
    device_id: Option<Option<u128>>,
    current_label: &str,
    current_device: Option<u128>,
) -> (r: Result<(String, Option<u128>), ApiError>)
    ensures
        ({
            let text = match label {
                Some(l) => trimmed(l@),
                None => current_label@,
            };
            if label_refusal(text) is Some {
                refusal_of(r) == label_refusal(text)
            } else {
                r matches Ok((l, d)) && l@ == text && d == match device_id {
                    Some(device) => device,
                    None => current_device,
                }
            }
        }),
{
    let text = match label {
        Some(l) => trim(l),
        None => current_label.to_owned(),
    };
    if !check_name(text.as_str()) {
        return Err(refuse(UNPROCESSABLE_ENTITY, "Label must be between 1 and 100 characters"));
    }
    let device = match device_id {
        Some(device) => device,
        None => current_device,
    };
    Ok((text, device))
}

/// Checks that the device of an access key exists, where it has one.
pub fn check_device(device_id: Option<u128>, known: bool) -> (r: Result<(), ApiError>)
    ensures
        refusal_of(r) == if device_id is Some && !known {
            Some((UNPROCESSABLE_ENTITY, "Device does not exist"@))
        } else {
            None
        },
        refusal_of(r) == device_refusal(device_id is Some, known),
{
    match device_id {
        Some(_) => {
            if !known {
                return Err(refuse(UNPROCESSABLE_ENTITY, "Device does not exist"));
            }
            Ok(())
        },
        None => Ok(()),
    }
}

/// What becomes of an access key's expiry.
#[derive(Debug, Clone, Copy, PartialEq, Eq, Structural)]
pub enum Expiry {
    Keep,
    Clear,
    /// This many days from now.
    InDays(i64),
}

/// Decides on an access key's expiry: nothing keeps it, 0 days clears it.
pub fn key_expiry(expires_in_days: Option<i64>) -> (r: Result<Expiry, ApiError>)
    ensures
        match expires_in_days {
            None => r == Ok::<Expiry, ApiError>(Expiry::Keep),
            Some(days) => if days == 0 {
                r == Ok::<Expiry, ApiError>(Expiry::Clear)
            } else if days >= 1 {
                r == Ok::<Expiry, ApiError>(Expiry::InDays(days))
            } else {
                refusal_of(r) == Some(
                    (UNPROCESSABLE_ENTITY, "expires_in_days must be 0 or at least 1"@),
                )
            },
        },
        match expiry_for(expires_in_days) {
            Some(expiry) => r == Ok::<Expiry, ApiError>(expiry),
            None => r is Err,
        },
{
    match expires_in_days {
        None => Ok(Expiry::Keep),
        Some(days) => {
            if days == 0 {
                Ok(Expiry::Clear)
            } else if days >= 1 {
                Ok(Expiry::InDays(days))
            } else {
                Err(refuse(UNPROCESSABLE_ENTITY, "expires_in_days must be 0 or at least 1"))
            }
        },
    }
}

/// When an access key expires that is valid for some days from now on. Times
/// are nanoseconds of Unix time.
pub fn key_expires_at(now: i128, days: i64) -> (r: i128)
    requires
        1 <= days,
        now + days * 86_400_000_000_000 <= i128::MAX,
    ensures
        r == now + days * 86_400_000_000_000,
        r == days_after(now as int, days as nat),
{
    now + days as i128 * 86_400_000_000_000
}

/// Megabits per second that the bandwidth cap may be at most.
pub const MBPS_MAX: u64 = 10_000;

/// Checks new server-wide settings: the bandwidth cap, then the agents'
/// defaults.
pub fn check_settings(mbps: u64, defaults: &AgentDefaults, max_channels: u16) -> (r: Result<
    (),
    ApiError,
>)
    ensures
        refusal_of(r) == if mbps > MBPS_MAX {
            Some((UNPROCESSABLE_ENTITY, "bandwidth_limit_mbps must be at most 10000"@))
        } else {
            match settings_error(defaults@, max_channels) {
                Some(text) => Some((UNPROCESSABLE_ENTITY, text)),
                None => None,
            }
        },
        refusal_of(r) == settings_refusal(mbps, defaults@, max_channels),
{
    if mbps > MBPS_MAX {
        return Err(refuse(UNPROCESSABLE_ENTITY, "bandwidth_limit_mbps must be at most 10000"));
    }
    match defaults.validate(max_channels) {
        Ok(()) => Ok(()),
        Err(text) => Err(ApiError { status: UNPROCESSABLE_ENTITY, text }),
    }
}

/// Checks that something asked for exists.
pub fn require_found(found: bool, text: &str) -> (r: Result<(), ApiError>)
    ensures
        refusal_of(r) == if found {
            None
        } else {
            Some((NOT_FOUND, text@))
        },
        refusal_of(r) == found_refusal(found, text@),
{
    if found {
        Ok(())
    } else {
        Err(refuse(NOT_FOUND, text))
    }
}

/// Checks that a device's token can be rotated: the device exists and is
/// online.
pub fn check_rotation(known: bool, online: bool) -> (r: Result<(), ApiError>)
    ensures
        refusal_of(r) == if !known {
            Some((NOT_FOUND, "Device not found"@))
        } else if !online {
            Some((CONFLICT, "Device must be online to rotate its token"@))
        } else {
            None
        },
        refusal_of(r) == rotation_refusal(known, online),
{
    if !known {
        return Err(refuse(NOT_FOUND, "Device not found"));
    }
    if !online {
        return Err(refuse(CONFLICT, "Device must be online to rotate its token"));
    }
    Ok(())
}

/// How a rotation ends: it is refused where the new token could not be sent to
/// its device.
pub fn settle_rotation(pushed: bool) -> (r: Result<(), ApiError>)
    ensures
        refusal_of(r) == if pushed {
            None
        } else {
            Some((CONFLICT, "Device went offline; token was not rotated"@))
        },
        refusal_of(r) == push_refusal(pushed),
{
    if pushed {
        Ok(())
    } else {
        Err(refuse(CONFLICT, "Device went offline; token was not rotated"))
    }
}

/// The number of log entries that a request gets.
pub open spec fn log_limit_of(value: Option<Seq<char>>) -> int {
    match value {
        None => 200,
        Some(s) => match signed_value(s, i64::MIN as int, i64::MAX as int) {
            None => 200,
            Some(n) => if n < 1 {
                1
            } else if n > 500 {
                500
            } else {
                n
            },
        },
    }
}

/// The number of log entries that a request gets.
pub fn log_limit(value: Option<&str>) -> (r: i64)
    ensures
        r == log_limit_of(
            match value {
                Some(s) => Some(s@),
                None => None,
            },
        ),
{
    match value {
        None => 200,
        Some(s) => match parse_i64(s) {
            None => 200,
            Some(n) => if n < 1 {
                1
            } else if n > 500 {
                500
            } else {
                n
            },
        },
    }
}

/// What an administrator is told of a tunnel's reachability.
#[derive(Debug, PartialEq, Eq)]
pub struct ProbeReport {
    pub ok: bool,
    pub listener: bool,
    pub agent_online: bool,
    /// Whether the local service was reached, where that was tried.
    pub local: Option<bool>,
    pub message: Option<String>,
}

/// Whether a report says that a probe did not come through.
pub open spec fn reports_failure(
    r: ProbeReport,
    listener: bool,
    agent_online: bool,
    text: Seq<char>,
) -> bool {
    !r.ok && r.listener == listener && r.agent_online == agent_online && r.local is None && (
    r.message matches Some(m) && m@ == text)
}

fn failure(listener: bool, agent_online: bool, text: &str) -> (r: ProbeReport)
    ensures
        reports_failure(r, listener, agent_online, text@),
{
    ProbeReport { ok: false, listener, agent_online, local: None, message: Some(text.to_owned()) }
}

/// What is reported before a probe is sent: nothing where it can be.
pub fn probe_check(listener: bool, agent_online: bool) -> (r: Option<ProbeReport>)
    ensures
        r is None <==> listener && agent_online,
        r matches Some(report) ==> reports_failure(
            report,
            listener,
            agent_online,
            if !listener {
                "tunnel listener is not active"@
            } else {
                "agent is offline"@
            },
        ),
        probe_barred(r, listener, agent_online),
{
    if !listener {
        Some(failure(listener, agent_online, "tunnel listener is not active"))
    } else if !agent_online {
        Some(failure(listener, agent_online, "agent is offline"))
    } else {
        None
    }
}

/// How a probe that passed the check went.
#[derive(Debug, PartialEq, Eq)]
pub enum ProbeOutcome {
    /// It could not be sent.
    NotSent,
    /// The agent answered.
    Answered { ok: bool, message: Option<String> },
    /// The place where the answer goes was lost.
    Lost,
    /// No answer came in time.
    TimedOut,
}

/// What is reported of a probe that passed the check.
pub fn probe_report(outcome: ProbeOutcome) -> (r: Result<ProbeReport, ApiError>)
    ensures
        match outcome {
            ProbeOutcome::NotSent => r matches Ok(report) && reports_failure(
                report,
                true,
                false,
                "agent went offline while probing"@,
            ),
            ProbeOutcome::Answered { ok, message } => r == Ok::<ProbeReport, ApiError>(
                ProbeReport {
                    ok,
                    listener: true,
                    agent_online: true,
                    local: Some(ok),
                    message,
                },
            ),
            ProbeOutcome::Lost => refusal_of(r) == Some(
                (INTERNAL_SERVER_ERROR, "Probe channel failed"@),
            ),
            ProbeOutcome::TimedOut => r matches Ok(report) && reports_failure(
                report,
                true,
                true,
                "probe timed out; agent may be running an older version"@,
            ),
        },
        probe_told(r, outcome),
{
    match outcome {
        ProbeOutcome::NotSent => Ok(failure(true, false, "agent went offline while probing")),
        ProbeOutcome::Answered { ok, message } => Ok(
            ProbeReport { ok, listener: true, agent_online: true, local: Some(ok), message },
        ),
        ProbeOutcome::Lost => Err(refuse(INTERNAL_SERVER_ERROR, "Probe channel failed")),
        ProbeOutcome::TimedOut => Ok(
            failure(true, true, "probe timed out; agent may be running an older version"),
        ),
    }
}

/// The name of the marker that shows a device to be online.
pub fn online_key(device_id: u128) -> (r: String)
    ensures
        r@ == "online:"@ + uuid_text(device_id),
{
    let mut out = "online:".to_owned();
    out.append(id_text(device_id).as_str());
    out
}

/// Whether the first administrator is made.
pub open spec fn bootstraps(
    email: Option<Seq<char>>,
    password: Option<Seq<char>>,
    admins: i64,
) -> bool {
    match (email, password) {
        (Some(e), Some(p)) => trimmed(e).len() > 0 && p.len() > 0 && admins <= 0,
        _ => false,
    }
}

/// The connections that a stored limit allows.
pub open spec fn limit_for(n: i32) -> int {
    if n >= 0 {
        n as int
    } else {
        usize::MAX + 1 + n
    }
}

/// Whether a row holds what a tunnel was made with.
pub open spec fn stores(
    r: StoredTunnel,
    kind: TunnelKind,
    public_port: u16,
    local_port: u16,
    max_connections: Option<u16>,
    default_max: u16,
) -> bool {
    &&& r.kind@ == kind_text(kind)
    &&& r.public_port == public_port
    &&& r.local_port == local_port
    &&& r.max_connections == match max_connections {
        Some(n) => n,
        None => default_max,
    }
}

/// What becomes of a key's expiry; nothing where the number of days is none.
pub open spec fn expiry_for(expires_in_days: Option<i64>) -> Option<Expiry> {
    match expires_in_days {
        None => Some(Expiry::Keep),
        Some(days) => if days == 0 {
            Some(Expiry::Clear)
        } else if days >= 1 {
            Some(Expiry::InDays(days))
        } else {
            None
        },
    }
}

/// A time in nanoseconds, some days on.
pub open spec fn days_after(now: int, days: nat) -> int {
    now + days * 86_400_000_000_000
}

/// Why settings are refused.
pub open spec fn settings_refusal(mbps: u64, d: SettingsView, max_channels: u16) -> Option<
    (u16, Seq<char>),
> {
    if mbps > MBPS_MAX {
        Some((UNPROCESSABLE_ENTITY, "bandwidth_limit_mbps must be at most 10000"@))
    } else {
        match settings_error(d, max_channels) {
            Some(text) => Some((UNPROCESSABLE_ENTITY, text)),
            None => None,
        }
    }
}

/// Why the token of a device cannot be replaced.
pub open spec fn rotation_refusal(known: bool, online: bool) -> Option<(u16, Seq<char>)> {
    if !known {
        Some((NOT_FOUND, "Device not found"@))
    } else if !online {
        Some((CONFLICT, "Device must be online to rotate its token"@))
    } else {
        None
    }
}

/// The name that a device has then, and whether it was given.
pub open spec fn renamed(given: Option<Seq<char>>, current: Seq<char>) -> Option<
    (Seq<char>, bool),
> {
    match given {
        None => Some((current, false)),
        Some(g) => if name_fits(trimmed(g)) {
            Some((trimmed(g), true))
        } else {
            None
        },
    }
}

/// The label that a new key has, where one can be made.
pub open spec fn key_label(label: Seq<char>, expires_in_days: Option<i64>) -> Option<Seq<char>> {
    if name_fits(trimmed(label)) && (expires_in_days matches Some(days) ==> days >= 1) {
        Some(trimmed(label))
    } else {
        None
    }
}

/// A header carries the token that follows its scheme: it is found again, and a
/// header in which one is found is made of nothing else.
pub proof fn bearer_carries_token(token: Seq<char>, header: Seq<char>)
    ensures
        bearer_of(Some("Bearer "@ + token)) == Some(token),
        bearer_of(Some(header)) matches Some(t) ==> header == "Bearer "@ + t,
        bearer_of(None) is None,
{
    reveal_strlit("Bearer ");
    assert(("Bearer "@ + token).take(7) =~= "Bearer "@);
    assert(("Bearer "@ + token).skip(7) =~= token);
    if bearer_of(Some(header)) is Some {
        assert(header =~= header.take(7) + header.skip(7));
    }
}

/// Nobody but an administrator with an id enters, under that id. Without claims
/// or with an id that is none the answer is 401, in another role 403.
pub proof fn only_admins_enter(sub: Seq<char>, role: Seq<char>, exp: u64)
    ensures
        authorized(Some((sub, role, exp))) is Ok <==> role == "admin"@ && parsed_uuid(sub) is Some,
        authorized(Some((sub, role, exp))) matches Ok(id) ==> parsed_uuid(sub) == Some(id),
        role != "admin"@ ==> authorized(Some((sub, role, exp))) == Err::<u128, u16>(403),
        role == "admin"@ && parsed_uuid(sub) is None ==> authorized(Some((sub, role, exp)))
            == Err::<u128, u16>(401),
        authorized(None) == Err::<u128, u16>(401),
{
}

/// A token is good for the hours that it was issued for, counted from its issue.
pub proof fn token_lasts_its_hours(
    c: Claims,
    d: Claims,
    user: UserRow,
    now_secs: i64,
    ttl_hours: i64,
    more: i64,
)
    requires
        claims_for(c, user, now_secs, ttl_hours),
        claims_for(d, user, now_secs, more),
    ensures
        c.exp - now_secs == ttl_hours * 60 * 60,
        d.exp - c.exp == 3600 * (more - ttl_hours),
        c.role@ == user.role@ && c.sub@ == uuid_text(user.id),
{
    assert(3600 * (more - ttl_hours) == more * 3600 - ttl_hours * 3600) by (nonlinear_arith);
    assert(ttl_hours * 60 * 60 == ttl_hours * 3600) by (nonlinear_arith);
}

/// The first administrator is made only where there is none yet, and where both
/// an address and a password are given.
pub proof fn bootstrap_happens_once(email: Seq<char>, password: Seq<char>, admins: i64)
    ensures
        admins > 0 ==> !bootstraps(Some(email), Some(password), admins),
        admins <= 0 && password.len() > 0 && email.len() > 0 && !white_space(email.first())
            && !white_space(email.last()) ==> bootstraps(Some(email), Some(password), admins),
        !bootstraps(Some(email), Some(Seq::empty()), admins),
        !bootstraps(Some(Seq::empty()), Some(password), admins),
        !bootstraps(Some(seq![' ']), Some(password), admins),
        !bootstraps(None, Some(password), admins),
        !bootstraps(Some(email), None, admins),
{
    if email.len() > 0 && !white_space(email.first()) && !white_space(email.last()) {
        trimming_cuts_ends(Seq::empty(), email, Seq::empty());
        assert(Seq::<char>::empty() + email + Seq::<char>::empty() =~= email);
    }
    trimming_cuts_ends(seq![' '], Seq::empty(), Seq::empty());
    assert(seq![' '] + Seq::<char>::empty() + Seq::<char>::empty() =~= seq![' ']);
}

/// What a tunnel was made with is what agents are told of it: its kind, its
/// ports, and its limit or the default one.
pub proof fn stored_tunnel_is_specified(
    stored: StoredTunnel,
    row: TunnelRow,
    t: TunnelSpec,
    kind: TunnelKind,
    public_port: u16,
    local_port: u16,
    max_connections: Option<u16>,
    default_max: u16,
)
    requires
        stores(stored, kind, public_port, local_port, max_connections, default_max),
        row.kind@ == stored.kind@,
        row.public_port == stored.public_port,
        row.local_port == stored.local_port,
        row.max_connections == stored.max_connections,
        specified(row, t),
    ensures
        t.kind == kind,
        t.public_port == public_port,
        t.local_port == local_port,
        max_connections matches Some(n) ==> t.max_connections == n,
        max_connections is None ==> t.max_connections == default_max,
        t.name@ == row.name@,
        t.local_host@ == row.local_host@,
        t.enabled == row.enabled,
        t.id@ == uuid_text(row.id),
        limit_for(stored.max_connections) == t.max_connections,
{
    kind_round_trip(kind);
}

/// Numbers that fit are stored and read without loss; others lose what is over
/// sixteen bits.
pub proof fn stored_numbers_wrap(n: i32, k: int)
    requires
        n + k * 65536 <= i32::MAX,
        n + k * 65536 >= i32::MIN,
    ensures
        0 <= n <= 65535 ==> low_bits(n) == n && limit_for(n) == n,
        0 <= low_bits(n) <= 65535,
        low_bits((n + k * 65536) as i32) == low_bits(n),
        n < 0 ==> limit_for(n) == usize::MAX - (-1 - n),
{
    vstd::arithmetic::div_mod::lemma_mod_multiples_vanish(k, n as int, 65536);
    assert(65536 * k + n == n + k * 65536);
}

/// A port is refused exactly where it is outside the range.
pub proof fn ports_within_range(port: u16, start: u16, end: u16)
    ensures
        port_refusal(port, start, end) is None <==> start <= port && port <= end,
        port_refusal(port, start, end) matches Some((status, _)) ==> status == 422,
{
}

/// Names and labels have one to a hundred characters. White space round them
/// does not count. A name that is not given stays.
pub proof fn names_have_a_hundred_characters(
    before: Seq<char>,
    s: Seq<char>,
    after: Seq<char>,
    current: Seq<char>,
    days: Option<i64>,
)
    requires
        forall|i: int| 0 <= i < before.len() ==> white_space(#[trigger] before[i]),
        forall|i: int| 0 <= i < after.len() ==> white_space(#[trigger] after[i]),
        s.len() > 0 ==> !white_space(s.first()) && !white_space(s.last()),
    ensures
        renamed(Some(before + s + after), current) == if 1 <= s.len() <= 100 {
            Some((s, true))
        } else {
            None
        },
        renamed(None, current) == Some((current, false)),
        label_refusal(s) is None <==> 1 <= s.len() <= 100,
        label_refusal(s) matches Some((status, _)) ==> status == 422,
        key_label(before + s + after, days) == if 1 <= s.len() <= 100 && (days is None || days->0
            >= 1) {
            Some(s)
        } else {
            None
        },
{
    trimming_cuts_ends(before, s, after);
}

/// A key's expiry stays where nothing is said of it, is taken away by zero, and
/// is set to days from now by a positive number; a negative one is refused.
pub proof fn expiry_follows_days(days: i64)
    ensures
        expiry_for(None) == Some(Expiry::Keep),
        expiry_for(Some(0)) == Some(Expiry::Clear),
        days > 0 ==> expiry_for(Some(days)) == Some(Expiry::InDays(days)),
        days < 0 ==> expiry_for(Some(days)) is None,
{
}

/// A day has twenty-four hours, and days after days add up.
pub proof fn days_add_up(now: int, a: nat, b: nat)
    ensures
        days_after(now, 0) == now,
        days_after(now, 1) - now == 24 * 3600 * 1_000_000_000,
        days_after(days_after(now, a), b) == days_after(now, a + b),
{
}

/// Settings are refused exactly where the cap is over ten thousand or they do
/// not pass validation.
pub proof fn settings_refused_over_cap(mbps: u64, d: SettingsView, max_channels: u16)
    ensures
        settings_refusal(mbps, d, max_channels) is None <==> mbps <= 10000 && settings_error(
            d,
            max_channels,
        ) is None,
        settings_refusal(mbps, d, max_channels) matches Some((status, _)) ==> status == 422,
{
}

/// The token of a device is replaced exactly where the device is known and
/// online.
pub proof fn rotation_needs_the_device(known: bool, online: bool)
    ensures
        rotation_refusal(known, online) is None <==> known && online,
        !known ==> (rotation_refusal(known, online) matches Some((status, _)) && status == 404),
        known && !online ==> (rotation_refusal(known, online) matches Some((status, _)) && status
            == 409),
{
}

/// As many entries are shown as asked for, from one to five hundred; two hundred
/// where no number is asked for.
pub proof fn log_limit_as_asked(n: nat, s: Seq<char>)
    requires
        n <= i64::MAX,
        signed_value(s, i64::MIN as int, i64::MAX as int) is None,
    ensures
        1 <= n <= 500 ==> log_limit_of(Some(dec(n))) == n,
        n > 500 ==> log_limit_of(Some(dec(n))) == 500,
        n == 0 ==> log_limit_of(Some(dec(n))) == 1,
        log_limit_of(Some(seq!['-'] + dec(n))) == 1,
        log_limit_of(Some(s)) == 200,
        log_limit_of(None) == 200,
{
    signed_reads_sign(n, i64::MIN as int, i64::MAX as int);
}

/// Why a key cannot be bound to a device.
pub open spec fn device_refusal(given: bool, known: bool) -> Option<(u16, Seq<char>)> {
    if given && !known {
        Some((UNPROCESSABLE_ENTITY, "Device does not exist"@))
    } else {
        None
    }
}

/// Why what was asked for cannot be had.
pub open spec fn found_refusal(found: bool, text: Seq<char>) -> Option<(u16, Seq<char>)> {
    if found {
        None
    } else {
        Some((NOT_FOUND, text))
    }
}

/// Why a token that was made is not in force.
pub open spec fn push_refusal(pushed: bool) -> Option<(u16, Seq<char>)> {
    if pushed {
        None
    } else {
        Some((CONFLICT, "Device went offline; token was not rotated"@))
    }
}

/// What is reported before a probe is tried, where it cannot be.
pub open spec fn probe_barred(r: Option<ProbeReport>, listener: bool, agent_online: bool) -> bool {
    &&& r is None <==> listener && agent_online
    &&& r matches Some(report) ==> reports_failure(
        report,
        listener,
        agent_online,
        if !listener {
            "tunnel listener is not active"@
        } else {
            "agent is offline"@
        },
    )
}

/// What is reported of a probe that was tried.
pub open spec fn probe_told(r: Result<ProbeReport, ApiError>, outcome: ProbeOutcome) -> bool {
    match outcome {
        ProbeOutcome::NotSent => r matches Ok(report) && reports_failure(
            report,
            true,
            false,
            "agent went offline while probing"@,
        ),
        ProbeOutcome::Answered { ok, message } => r == Ok::<ProbeReport, ApiError>(
            ProbeReport { ok, listener: true, agent_online: true, local: Some(ok), message },
        ),
        ProbeOutcome::Lost => refusal_of(r) == Some(
            (INTERNAL_SERVER_ERROR, "Probe channel failed"@),
        ),
        ProbeOutcome::TimedOut => r matches Ok(report) && reports_failure(
            report,
            true,
            true,
            "probe timed out; agent may be running an older version"@,
        ),
    }
}

/// What is not known is not found, a key is bound only to a known device, and a
/// token is in force only where the device got it.
pub proof fn requests_need_their_subjects(given: bool, known: bool, text: Seq<char>)
    ensures
        device_refusal(given, known) is None <==> (given ==> known),
        device_refusal(given, known) matches Some((status, _)) ==> status == 422,
        found_refusal(known, text) is None <==> known,
        found_refusal(false, text) == Some((404u16, text)),
        push_refusal(known) is None <==> known,
        push_refusal(known) matches Some((status, _)) ==> status == 409,
{
}

/// A probe is tried exactly where the tunnel listens and the agent is online;
/// else the report says which of them is missing.
pub proof fn probe_needs_both_ends(r: Option<ProbeReport>, listener: bool, agent_online: bool)
    requires
        probe_barred(r, listener, agent_online),
    ensures
        r is None <==> listener && agent_online,
        r matches Some(report) ==> !report.ok && report.listener == listener && report.agent_online
            == agent_online && report.local is None,
{
}

/// A probe is reported good exactly where the agent answered so. Only an answer
/// says anything of the local service, and only a lost one is an error.
pub proof fn probe_good_iff_answered_so(r: Result<ProbeReport, ApiError>, outcome: ProbeOutcome)
    requires
        probe_told(r, outcome),
    ensures
        (r is Ok && r->Ok_0.ok) <==> (outcome is Answered && outcome->ok),
        r matches Ok(report) ==> (report.local is Some <==> outcome is Answered) && (
        report.agent_online <==> !(outcome is NotSent)) && report.listener,
        r is Ok && r->Ok_0.local is Some ==> r->Ok_0.local == Some(r->Ok_0.ok),
        r is Err <==> outcome is Lost,
        r matches Err(e) ==> e.status == 500,
{
}

/// A password is hashed as long as its bytes can be counted in thirty-two bits,
/// and the hash fits it.
pub proof fn password_fits_its_hash(r: Result<String, String>, password: Seq<char>)
    requires
        hashed(r, password),
    ensures
        r is Ok <==> encode_utf8(password).len() <= 0xffff_ffff,
        r matches Ok(hash) ==> password_fits(hash@, password),
{
}

/// An expiry that a date can name is in range.
pub proof fn expiry_up_to_last_second(now_secs: i64, ttl_hours: i64)
    requires
        0 <= now_secs,
        0 <= ttl_hours,
    ensures
        expiry_in_range(now_secs, ttl_hours) <==> now_secs + ttl_hours * 3600
            <= 8_210_266_876_799,
{
}

/// A tunnel for which no limit was given has a hundred connections.
pub proof fn hundred_connections_by_default(
    r: StoredTunnel,
    t: StoredTunnel,
    kind: TunnelKind,
    public_port: u16,
    local_port: u16,
    given: u16,
)
    requires
        stores(r, kind, public_port, local_port, None, DEFAULT_MAX_CONNECTIONS),
        stores(t, kind, public_port, local_port, Some(given), DEFAULT_MAX_CONNECTIONS),
    ensures
        r.max_connections == 100,
        t.max_connections == given,
{
}

} // verus!
