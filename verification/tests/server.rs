use tunnel_control::admin::{
    admin_of, authorize, bearer, bootstrap_due, check_device, check_port, check_rotation, check_settings,
    connection_limit, device_name, issue_token, key_expires_at, key_expiry, kind_of, kind_str, log_limit, login, login_checked,
    online_key, password_hash, password_valid, plan_key, plan_key_update, probe_check, probe_report,
    require_found, settle_rotation, stored_tunnel, stored_u16, tunnel_specs, Claims, Expiry,
    ProbeOutcome, ProbeReport, TunnelRow, UserRow, DEFAULT_MAX_CONNECTIONS,
};
use tunnel_control::api::{refuse, ApiError};
use tunnel_control::enrollment::{
    check_code, decision_message, marks_expired, time_left, EnrollStart, EnrollmentDecision, Enrollments,
};
use tunnel_control::ids::id_text;
use tunnel_control::listeners::Listeners;
use tunnel_control::messages::{
    data_bind, enroll, error_message, heartbeat, register, stream_close, stream_open, CloseReason,
};
use tunnel_control::plane::{DataPlane, RouteOutcome, RouteTarget, SlotOutcome};
use tunnel_control::plane_model::SECOND;
use tunnel_control::protocol::{
    encode_stream_data, AgentSettings, ControlMessage, TunnelKind, PROTOCOL_VERSION,
};
use tunnel_control::server_config::{
    effective_mbps, read_config, read_port, ConfigError, ServerEnv,
};
use tunnel_control::server_session::{
    control_message, echo, frame_left, frame_target, greeting, judge_token, open_control,
    open_data, peer_key, route_close, stream_closes, token_rejection, udp_cleanup_secs,
    EchoWarning, Opening, ProbeAnswer, TokenVerdict,
};
use tunnel_control::settings::AgentDefaults;
use tunnel_control::token::hash_token;

fn refused<T: std::fmt::Debug>(r: Result<T, ApiError>) -> (u16, String) {
    let e = r.unwrap_err();
    (e.status, e.text)
}

fn refusal(status: u16, text: &str) -> (u16, String) {
    (status, text.to_string())
}

fn env() -> ServerEnv {
    ServerEnv {
        tunnel_port_start: None,
        tunnel_port_end: None,
        bandwidth_limit_mbps: None,
        udp_session_idle_secs: None,
        data_channels_max: None,
        shutdown_drain_secs: None,
        admin_token_ttl_hours: None,
        bootstrap_agent_token: None,
        management_port: None,
    }
}

#[test]
fn first_messages_open_sessions() {
    let register_message = register("abc", "pc");
    assert_eq!(
        register_message,
        ControlMessage::Register {
            version: PROTOCOL_VERSION,
            token: "abc".into(),
            device_name: "pc".into(),
        }
    );
    assert_eq!(
        open_control(register_message),
        Opening::Register { token_hash: hash_token("abc"), device_name: "pc".into() }
    );
    assert_eq!(
        open_control(enroll("ABCD2345", "pc")),
        Opening::Enroll { code: "ABCD2345".into(), device_name: "pc".into() }
    );
    assert_eq!(open_control(heartbeat(1)), Opening::Refused);
    assert_eq!(open_data(&data_bind("abc")), Some(hash_token("abc")));
    assert_eq!(open_data(&heartbeat(1)), None);
}

#[test]
fn tokens_are_judged() {
    assert_eq!(judge_token(Some((1, Some(2))), "h", Some("h")), TokenVerdict::Device(2));
    assert_eq!(judge_token(Some((1, None)), "h", None), TokenVerdict::Pending(1));
    assert_eq!(judge_token(None, "h", Some("h")), TokenVerdict::Bootstrap);
    assert_eq!(judge_token(None, "h", Some("g")), TokenVerdict::Rejected);
    assert_eq!(judge_token(None, "h", None), TokenVerdict::Rejected);
    assert_eq!(
        token_rejection(),
        ControlMessage::Error { code: "invalid_token".into(), message: "Token rejected".into() }
    );
}

#[test]
fn registration_is_answered() {
    let settings = AgentSettings {
        device_name: "pc".into(),
        server_url: String::new(),
        data_channels: 2,
        heartbeat_secs: 10,
        pong_timeout_secs: 25,
        reconnect_min_secs: 1,
        reconnect_max_secs: 10,
        log_level: "info".into(),
    };
    let messages = greeting(5, vec![], 30, Some(settings.clone()));
    assert_eq!(
        messages,
        vec![
            ControlMessage::Registered { device_id: id_text(5), tunnels: vec![] },
            ControlMessage::BandwidthConfig { mbps: 30 },
            ControlMessage::SettingsSync { settings },
        ]
    );
    assert_eq!(greeting(5, vec![], 30, None).len(), 2);
}

#[test]
fn control_messages_change_the_plane() {
    let mut plane = DataPlane::new();
    assert!(plane.try_register_stream(77, 1, 7, 1, 10));
    assert_eq!(control_message(&mut plane, 1, 10, heartbeat(25), 5), None);
    assert_eq!(plane.flush_heartbeats(5), vec![(1, 25)]);
    let bad = ControlMessage::StreamClose { stream_id: "x".into(), reason: None };
    assert_eq!(control_message(&mut plane, 1, 10, bad, 5), None);
    assert!(plane.stream(77).is_some());
    assert_eq!(control_message(&mut plane, 1, 10, stream_close(77, None), 5), None);
    assert!(plane.stream(77).is_none());
    let answer =
        ControlMessage::ProbeResult { probe_id: "p".into(), ok: true, message: None };
    assert_eq!(
        control_message(&mut plane, 1, 10, answer, 5),
        Some(ProbeAnswer { probe_id: "p".into(), ok: true, message: None })
    );
}

#[test]
fn data_frames_are_routed() {
    let mut plane = DataPlane::new();
    assert!(plane.try_register_stream(77, 1, 7, 1, 10));
    let frame = encode_stream_data(77, b"xy").unwrap();
    assert_eq!(
        frame_target(&plane, &frame),
        Some((77, RouteTarget::Stream, b"xy".as_slice()))
    );
    assert_eq!(frame_target(&plane, b"short"), None);
    assert_eq!(plane.acquire_stream_slot(77), SlotOutcome::Acquired);
    assert_eq!(frame_left(&mut plane, &frame), Some(77));
    assert_eq!(plane.stream(77).unwrap().outstanding, 0);
    assert_eq!(frame_left(&mut plane, b"short"), None);
    let other = encode_stream_data(78, b"xy").unwrap();
    assert_eq!(frame_left(&mut plane, &other), None);
    let close = |reason: &str| ControlMessage::StreamClose {
        stream_id: "77".into(),
        reason: Some(reason.into()),
    };
    assert_eq!(route_close(RouteOutcome::Delivered), None);
    assert_eq!(route_close(RouteOutcome::Dropped), None);
    assert_eq!(
        route_close(RouteOutcome::StreamSendTimeout(77)),
        Some(close("stream_send_timeout"))
    );
    assert_eq!(
        route_close(RouteOutcome::StreamChannelClosed(77)),
        Some(close("stream_channel_closed"))
    );
    assert_eq!(
        route_close(RouteOutcome::UdpSessionGone(77)),
        Some(close("udp_session_closed"))
    );
    for (reason, text) in [
        (CloseReason::DataChannelLost, "data_channel_lost"),
        (CloseReason::ControlLost, "control_lost"),
        (CloseReason::TunnelDisabled, "tunnel_disabled"),
        (CloseReason::UdpSessionTimeout, "udp_session_timeout"),
        (CloseReason::ServerShutdown, "server_shutdown"),
        (CloseReason::LocalConnectFailed, "local_connect_failed"),
        (CloseReason::LocalBindFailed, "local_bind_failed"),
    ] {
        assert_eq!(stream_closes(&vec![77], reason), vec![close(text)]);
    }
    assert_eq!(
        stream_open(77, 5, 2),
        ControlMessage::StreamOpen {
            stream_id: "77".into(),
            tunnel_id: id_text(5),
            data_channel: 2,
        }
    );
}

#[test]
fn heartbeats_are_echoed() {
    assert_eq!(echo(&heartbeat(9)), Some(heartbeat(0)));
    assert_eq!(echo(&data_bind("t")), None);
    let mut warning = EchoWarning::new(0);
    assert!(!warning.dropped(10 * SECOND - 1));
    assert!(warning.dropped(10 * SECOND));
    assert!(!warning.dropped(10 * SECOND));
    assert!(warning.dropped(20 * SECOND));
    assert_eq!(udp_cleanup_secs(5), 10);
    assert_eq!(udp_cleanup_secs(45), 45);
    assert_eq!(udp_cleanup_secs(120), 60);
    assert_eq!(peer_key(0x7f00_0001, 1000), 0x7f00_0001_03e8);
    assert_ne!(peer_key(1, 0), peer_key(0, 1));
}

#[test]
fn enrollment_waits_for_its_code() {
    let mut pending = Enrollments::new();
    let now: i128 = 1_000;
    let later = now + 15 * 60 * 1_000_000_000;
    assert_eq!(
        pending.start(1, "bad", 0, now),
        EnrollStart::Invalid(error_message(
            "invalid_enroll_code",
            "Enrollment code must be 8 characters"
        ))
    );
    assert_eq!(pending.start(1, " abcd2345 ", 1, now), EnrollStart::Duplicate);
    assert!(!pending.waits(1));
    let hash = hash_token("ABCD2345");
    assert_eq!(
        pending.start(1, " abcd2345 ", 0, now),
        EnrollStart::Waiting { code_hash: hash.clone(), expires_at: later }
    );
    assert!(pending.waits(1));
    assert_eq!(check_code("abcd2345"), Ok(hash.clone()));
    let stored = Some((hash.as_str(), later));
    assert_eq!(
        refused(pending.approve(1, "xx", stored, now)),
        refusal(422, "Enrollment code must be 8 characters from the pairing alphabet")
    );
    assert_eq!(
        refused(pending.approve(1, "ABCD2345", None, now)),
        refusal(404, "Enrollment not found or already resolved")
    );
    assert_eq!(
        refused(pending.approve(1, "ABCD2345", stored, later)),
        refusal(410, "Enrollment code expired")
    );
    assert!(marks_expired("ABCD2345", stored, later));
    assert!(marks_expired(" abcd2345 ", stored, later));
    assert!(!marks_expired("ABCD2345", stored, later - 1));
    assert!(!marks_expired("xx", stored, later));
    assert!(!marks_expired("ABCD2345", None, later));
    assert_eq!(
        refused(pending.approve(1, "ABCD2346", stored, now)),
        refusal(422, "Enrollment code does not match")
    );
    assert_eq!(
        refused(pending.approve(2, "ABCD2345", stored, now)),
        refusal(409, "Enrollment connection is no longer online")
    );
    assert_eq!(pending.approve(1, "abcd2345", stored, later - 1), Ok(()));
    assert_eq!(
        refused(pending.approve(1, "abcd2345", stored, now)),
        refusal(409, "Enrollment connection is no longer online")
    );
    pending.start(3, "ABCD2345", 0, now);
    assert_eq!(
        refused(pending.approve(3, "ABCD2345", Some((hash.as_str(), later + 5)), later)),
        refusal(410, "Enrollment expired")
    );
    pending.start(4, "ABCD2345", 0, now);
    assert!(pending.forget(4));
    assert!(!pending.forget(4));
}

#[test]
fn enrollment_decisions_have_messages() {
    assert_eq!(
        decision_message(EnrollmentDecision::Approved { token: "t".into(), device_id: 5 }),
        ControlMessage::Enrolled { token: "t".into(), device_id: id_text(5) }
    );
    assert_eq!(
        decision_message(EnrollmentDecision::Denied),
        error_message("enroll_denied", "Enrollment rejected by administrator")
    );
    assert_eq!(
        decision_message(EnrollmentDecision::Expired),
        error_message("enroll_expired", "Enrollment code expired")
    );
    assert_eq!(time_left(10, 4), 6);
    assert_eq!(time_left(4, 10), 0);
    assert_eq!(time_left(-4, -10), 6);
    assert_eq!(time_left(i128::MAX, i128::MIN), u128::MAX);
}

#[test]
fn listeners_exit_by_generation() {
    let mut listeners = Listeners::new();
    assert!(!listeners.is_active(1));
    let first = listeners.prepare();
    listeners.install(1, first);
    assert!(listeners.is_active(1));
    assert!(listeners.remove(1));
    assert!(!listeners.remove(1));
    let second = listeners.prepare();
    listeners.install(1, second);
    assert!(second > first);
    assert!(!listeners.finish(1, first));
    assert!(listeners.is_active(1));
    assert!(listeners.finish(1, second));
    assert!(!listeners.is_active(1));
}

#[test]
fn environment_is_filtered() {
    let config = read_config(&env()).unwrap();
    assert_eq!((config.tunnel_port_start, config.tunnel_port_end), (10000, 10100));
    assert_eq!(config.bandwidth_limit_mbps, 0);
    assert_eq!(config.udp_session_idle_secs, 120);
    assert_eq!(config.data_channels_max, 4);
    assert_eq!(config.shutdown_drain_secs, 10);
    assert_eq!(config.admin_token_ttl_hours, 720);
    assert_eq!(config.bootstrap_agent_token_hash, None);
    assert_eq!(config.management_port, 18080);
    let mut given = env();
    given.udp_session_idle_secs = Some("29".into());
    given.data_channels_max = Some("17".into());
    given.shutdown_drain_secs = Some("301".into());
    given.admin_token_ttl_hours = Some("-1".into());
    given.bootstrap_agent_token = Some("  ".into());
    given.bandwidth_limit_mbps = Some("x".into());
    assert_eq!(read_config(&given), Ok(config));
    given.udp_session_idle_secs = Some("30".into());
    given.data_channels_max = Some("16".into());
    given.shutdown_drain_secs = Some("300".into());
    given.admin_token_ttl_hours = Some("1".into());
    given.bootstrap_agent_token = Some(" t ".into());
    given.bandwidth_limit_mbps = Some("+5".into());
    let config = read_config(&given).unwrap();
    assert_eq!(config.udp_session_idle_secs, 30);
    assert_eq!(config.data_channels_max, 16);
    assert_eq!(config.shutdown_drain_secs, 300);
    assert_eq!(config.admin_token_ttl_hours, 1);
    assert_eq!(config.bootstrap_agent_token_hash, Some(hash_token(" t ")));
    assert_eq!(config.bandwidth_limit_mbps, 5);
    assert_eq!(effective_mbps(Some("7"), 5), 7);
    assert_eq!(effective_mbps(Some("x"), 5), 5);
    assert_eq!(effective_mbps(None, 5), 5);
}

#[test]
fn bad_ports_stop_the_server() {
    let mut given = env();
    given.tunnel_port_start = Some("x".into());
    assert_eq!(read_config(&given), Err(ConfigError::PortStart));
    given.tunnel_port_start = Some("20000".into());
    assert_eq!(read_config(&given), Err(ConfigError::PortOrder));
    given.tunnel_port_end = Some("70000".into());
    assert_eq!(read_config(&given), Err(ConfigError::PortEnd));
    given.tunnel_port_end = Some("20000".into());
    given.management_port = Some("".into());
    assert_eq!(read_config(&given), Err(ConfigError::ManagementPort));
    assert_eq!(read_port(&Some("80".into()), 1), Some(80));
    assert_eq!(read_port(&None, 1), Some(1));
}

#[test]
fn only_administrators_are_authorized() {
    assert_eq!(bearer(Some("Bearer abc")), Some("abc".to_string()));
    assert_eq!(bearer(Some("bearer abc")), None);
    assert_eq!(bearer(None), None);
    let claims = |sub: String, role: &str| Claims { sub, role: role.into(), exp: 0 };
    assert_eq!(authorize(None), Err(401));
    assert_eq!(authorize(Some(&claims(id_text(5), "user"))), Err(403));
    assert_eq!(authorize(Some(&claims("x".into(), "admin"))), Err(401));
    assert_eq!(authorize(Some(&claims(id_text(5), "admin"))), Ok(5));
}

#[test]
fn passwords_are_checked() {
    let hash = password_hash("secret").unwrap();
    assert!(hash.starts_with("$argon2id$"));
    let user = UserRow { id: 5, password_hash: hash, role: "admin".into() };
    let claims = Claims { sub: id_text(5), role: "admin".into(), exp: 1_000 + 7_200 };
    assert_eq!(login(Some(&user), "secret", 1_000, 2), Ok(claims));
    assert_eq!(login(Some(&user), "Secret", 1_000, 2), Err(401));
    assert_eq!(login(None, "secret", 1_000, 2), Err(401));
    assert_eq!(login(None, "secret", i64::MAX, i64::MAX), Err(401));
    assert_eq!(login_checked(Some(&user), false, i64::MAX, i64::MAX), Err(401));
    assert!(password_valid(Some(&user), "secret"));
    assert!(!password_valid(Some(&user), "Secret"));
    assert!(!password_valid(None, "secret"));
    let broken = UserRow { id: 5, password_hash: "secret".into(), role: "admin".into() };
    assert_eq!(login(Some(&broken), "secret", 1_000, 2), Err(401));
    assert_eq!(login_checked(Some(&user), false, 1_000, 2), Err(401));
    assert!(login_checked(Some(&user), true, 1_000, 2).is_ok());
    assert!(bootstrap_due(Some("a@b"), Some("p"), 0));
    assert!(!bootstrap_due(Some(" "), Some("p"), 0));
    assert!(!bootstrap_due(Some("a@b"), Some(""), 0));
    assert!(!bootstrap_due(Some("a@b"), Some("p"), 1));
    assert!(!bootstrap_due(None, Some("p"), 0));
}

#[test]
fn tunnels_are_stored_and_specified() {
    assert_eq!(check_port(10000, 10000, 10100), Ok(()));
    assert_eq!(
        refused(check_port(9999, 10000, 10100)),
        refusal(422, "Public port must be between 10000 and 10100")
    );
    let stored = stored_tunnel(TunnelKind::Udp, 10001, 53, None, DEFAULT_MAX_CONNECTIONS);
    assert_eq!(stored.kind, "udp");
    assert_eq!((stored.public_port, stored.local_port, stored.max_connections), (10001, 53, 100));
    assert_eq!(stored_tunnel(TunnelKind::Tcp, 1, 2, Some(3), 9).max_connections, 3);
    for kind in [TunnelKind::Tcp, TunnelKind::Http, TunnelKind::Udp] {
        assert_eq!(kind_of(&kind_str(kind)), kind);
    }
    assert_eq!(kind_of("sctp"), TunnelKind::Tcp);
    for n in [0, 1, -1, 65535, 65536, 70000, i32::MIN, i32::MAX] {
        assert_eq!(stored_u16(n), n as u16);
        assert_eq!(connection_limit(n), n as usize);
    }
    let rows = vec![TunnelRow {
        id: 5,
        name: "n".into(),
        kind: "http".into(),
        public_port: 10001,
        local_host: "h".into(),
        local_port: 80,
        enabled: true,
        max_connections: 7,
    }];
    let specs = tunnel_specs(&rows);
    assert_eq!(specs.len(), 1);
    assert_eq!(specs[0].id, id_text(5));
    assert_eq!(specs[0].kind, TunnelKind::Http);
    assert_eq!((specs[0].public_port, specs[0].local_port), (10001, 80));
    assert_eq!(specs[0].max_connections, 7);
}

#[test]
fn names_and_keys_have_rules() {
    assert_eq!(device_name(None, "pc"), Ok(("pc".to_string(), false)));
    assert_eq!(device_name(Some(" new "), "pc"), Ok(("new".to_string(), true)));
    let text = "Device name must be between 1 and 100 characters";
    assert_eq!(refused(device_name(Some("  "), "pc")), refusal(422, text));
    assert_eq!(device_name(Some(&"名".repeat(100)), "pc").unwrap().0.chars().count(), 100);
    assert_eq!(refused(device_name(Some(&"名".repeat(101)), "pc")), refusal(422, text));
    let label = "Label must be between 1 and 100 characters";
    assert_eq!(plan_key(" key ", Some(1)), Ok("key".to_string()));
    assert_eq!(refused(plan_key("", Some(0))), refusal(422, label));
    assert_eq!(
        refused(plan_key("key", Some(0))),
        refusal(422, "expires_in_days must be at least 1")
    );
    assert_eq!(
        plan_key_update(None, None, "old", Some(5)),
        Ok(("old".to_string(), Some(5)))
    );
    assert_eq!(
        plan_key_update(Some(" new "), Some(None), "old", Some(5)),
        Ok(("new".to_string(), None))
    );
    assert_eq!(
        plan_key_update(None, Some(Some(6)), "old", None),
        Ok(("old".to_string(), Some(6)))
    );
    assert_eq!(refused(plan_key_update(Some(" "), None, "old", None)), refusal(422, label));
    assert_eq!(check_device(None, false), Ok(()));
    assert_eq!(check_device(Some(5), true), Ok(()));
    assert_eq!(refused(check_device(Some(5), false)), refusal(422, "Device does not exist"));
    assert_eq!(key_expiry(None), Ok(Expiry::Keep));
    assert_eq!(key_expiry(Some(0)), Ok(Expiry::Clear));
    assert_eq!(key_expiry(Some(3)), Ok(Expiry::InDays(3)));
    assert_eq!(key_expires_at(7, 3), 259_200_000_000_007);
    assert_eq!(key_expires_at(-1, 1), 86_399_999_999_999);
    assert_eq!(
        refused(key_expiry(Some(-1))),
        refusal(422, "expires_in_days must be 0 or at least 1")
    );
}

#[test]
fn other_requests_are_checked() {
    let defaults = AgentDefaults::default();
    assert_eq!(check_settings(10_000, &defaults, 4), Ok(()));
    assert_eq!(
        refused(check_settings(10_001, &defaults, 4)),
        refusal(422, "bandwidth_limit_mbps must be at most 10000")
    );
    assert_eq!(
        refused(check_settings(0, &defaults, 1)),
        refusal(422, "data_channels must not exceed the server cap 1")
    );
    assert_eq!(require_found(true, "Device not found"), Ok(()));
    assert_eq!(
        refused(require_found(false, "Device not found")),
        refusal(404, "Device not found")
    );
    assert_eq!(check_rotation(true, true), Ok(()));
    assert_eq!(refused(check_rotation(false, true)), refusal(404, "Device not found"));
    assert_eq!(
        refused(check_rotation(true, false)),
        refusal(409, "Device must be online to rotate its token")
    );
    assert_eq!(settle_rotation(true), Ok(()));
    assert_eq!(
        refused(settle_rotation(false)),
        refusal(409, "Device went offline; token was not rotated")
    );
    assert_eq!(log_limit(None), 200);
    assert_eq!(log_limit(Some("x")), 200);
    assert_eq!(log_limit(Some("0")), 1);
    assert_eq!(log_limit(Some("-7")), 1);
    assert_eq!(log_limit(Some("501")), 500);
    assert_eq!(log_limit(Some("42")), 42);
    assert_eq!(online_key(5), format!("online:{}", id_text(5)));
    assert_eq!(refuse(500, "x"), ApiError { status: 500, text: "x".into() });
}

#[test]
fn probes_are_reported() {
    let failure = |listener, agent_online, text: &str| ProbeReport {
        ok: false,
        listener,
        agent_online,
        local: None,
        message: Some(text.to_string()),
    };
    assert_eq!(
        probe_check(false, false),
        Some(failure(false, false, "tunnel listener is not active"))
    );
    assert_eq!(probe_check(true, false), Some(failure(true, false, "agent is offline")));
    assert_eq!(probe_check(true, true), None);
    assert_eq!(
        probe_report(ProbeOutcome::NotSent),
        Ok(failure(true, false, "agent went offline while probing"))
    );
    assert_eq!(
        probe_report(ProbeOutcome::TimedOut),
        Ok(failure(true, true, "probe timed out; agent may be running an older version"))
    );
    assert_eq!(
        refused(probe_report(ProbeOutcome::Lost)),
        refusal(500, "Probe channel failed")
    );
    assert_eq!(
        probe_report(ProbeOutcome::Answered { ok: false, message: Some("m".into()) }),
        Ok(ProbeReport {
            ok: false,
            listener: true,
            agent_online: true,
            local: Some(false),
            message: Some("m".into()),
        })
    );
}

#[test]
fn issued_token_lets_its_administrator_in() {
    let user = |role: &str| UserRow {
        id: 0x1234,
        password_hash: String::new(),
        role: role.to_string(),
    };
    let token_of = |role: &str, now: i64| {
        let claims = login_checked(Some(&user(role)), true, now, 1).unwrap();
        format!("Bearer {}", issue_token(&claims, "secret one").unwrap())
    };
    let far = 4_000_000_000;
    let header = token_of("admin", far);
    assert_eq!(header.matches('.').count(), 2);
    assert_eq!(
        header,
        "Bearer eyJ0eXAiOiJKV1QiLCJhbGciOiJIUzI1NiJ9.\
         eyJzdWIiOiIwMDAwMDAwMC0wMDAwLTAwMDAtMDAwMC0wMDAwMDAwMDEyMzQiLCJyb2xlIjoiYWRtaW4iLCJleHAiOjQwMDAwMDM2MDB9.\
         DbFX77L7RDqGNxoiZl4sXvZ4FZsPJfE9Y7uAsbA5Nkw"
    );
    assert_eq!(admin_of(Some(&header), "secret one"), Ok(0x1234));
    assert_eq!(admin_of(Some(&header), "secret two"), Err(401));
    assert_eq!(admin_of(Some(&header[7..]), "secret one"), Err(401));
    assert_eq!(admin_of(Some("Bearer x"), "secret one"), Err(401));
    assert_eq!(admin_of(None, "secret one"), Err(401));
    assert_eq!(admin_of(Some(&token_of("admin", 1_000)), "secret one"), Err(401));
    assert_eq!(admin_of(Some(&token_of("user", far)), "secret one"), Err(403));
}
