use tunnel_control::agent_channel::{
    after_run, bound_channel, bridge_ended, enroll_reply, frame_arrived, frame_leaves, frame_sent,
    local_close, local_target, probe_result, refusal, Arrival, BridgeEnd, EnrollReply, NextStep, ProbeStep,
    Retry,
};
use tunnel_control::agent_session::{
    settings_reconnect_decision, updates_for_refusal, updates_for_settings, Action, AgentSession,
    RunOutcome, Tick,
};
use tunnel_control::agent_streams::{
    AgentRoute, BufferOutcome, StreamTable, PENDING_STREAM_BYTES, PENDING_STREAM_HARD_BYTES,
};
use tunnel_control::plane::{QueueResult, SlotOutcome};
use tunnel_control::plane_model::{SECOND, STREAM_CHANNEL_QUOTA};
use tunnel_control::protocol::{
    decode_stream_data, encode_stream_data, AgentSettings, ControlMessage, TunnelKind, TunnelSpec,
};
use tunnel_control::traffic::{IpcTrafficTotals, TrafficStats};

fn settings() -> AgentSettings {
    AgentSettings {
        device_name: "pc".into(),
        server_url: "ws://123.207.8.77:18080/control".into(),
        data_channels: 2,
        heartbeat_secs: 10,
        pong_timeout_secs: 25,
        reconnect_min_secs: 1,
        reconnect_max_secs: 10,
        log_level: "info".into(),
    }
}

fn spec(id: &str, kind: TunnelKind) -> TunnelSpec {
    TunnelSpec {
        id: id.into(),
        name: "test".into(),
        kind,
        public_port: 19000,
        local_host: "127.0.0.1".into(),
        local_port: 8080,
        enabled: true,
        max_connections: 10,
    }
}

fn pairs(list: &[(&str, &str)]) -> Vec<(String, String)> {
    list.iter().map(|(k, v)| (k.to_string(), v.to_string())).collect()
}

#[test]
fn tcp_route_waits_when_local_queue_is_full() {
    let mut table = StreamTable::new();
    let mut traffic = TrafficStats::new();
    let id: u128 = 88;
    table.open_stream(id, false);
    // A local queue with room for one frame.
    let mut queue: Vec<Vec<u8>> = Vec::new();
    let mut received: Vec<Vec<u8>> = Vec::new();
    let first = encode_stream_data(id, b"first").unwrap();
    let second = encode_stream_data(id, b"second").unwrap();
    assert_eq!(frame_arrived(&mut table, &mut traffic, 1, &first, 0), Arrival::Bytes(id));
    queue.push(decode_stream_data(&first).unwrap().1.to_vec());
    assert_eq!(table.settle_route(id, QueueResult::Sent), None);
    // The second frame waits: nothing is settled, and the stream stays.
    assert_eq!(frame_arrived(&mut table, &mut traffic, 1, &second, 0), Arrival::Bytes(id));
    assert_eq!(table.route(id), AgentRoute::Bytes);
    assert!(table.stream(id).is_some());
    // Draining the queue lets the waiting frame through, in order.
    received.append(&mut queue);
    assert_eq!(received, [b"first".to_vec()]);
    queue.push(decode_stream_data(&second).unwrap().1.to_vec());
    assert_eq!(table.settle_route(id, QueueResult::Sent), None);
    received.append(&mut queue);
    assert_eq!(received, [b"first".to_vec(), b"second".to_vec()]);
    assert!(table.stream(id).is_some());
}

#[test]
fn tcp_route_times_out_and_closes_stream() {
    let mut table = StreamTable::new();
    let id: u128 = 89;
    table.open_stream(id, false);
    assert_eq!(table.settle_route(id, QueueResult::Sent), None);
    let reason = table.settle_route(id, QueueResult::Full).expect("a reason to close");
    assert_eq!(reason, "local_send_timeout");
    assert!(table.stream(id).is_none());
    assert_eq!(
        local_close(id, reason),
        ControlMessage::StreamClose {
            stream_id: "89".into(),
            reason: Some("local_send_timeout".into()),
        }
    );
}

#[test]
fn closed_local_queue_closes_stream() {
    let mut table = StreamTable::new();
    table.open_stream(5, false);
    assert_eq!(
        table.settle_route(5, QueueResult::Closed),
        Some("local_channel_closed".to_string())
    );
    assert!(table.stream(5).is_none());
}

#[test]
fn udp_route_drops_when_queue_is_full_and_keeps_session() {
    let mut table = StreamTable::new();
    let id: u128 = 90;
    table.open_stream(id, true);
    assert_eq!(table.route(id), AgentRoute::Datagram);
    assert_eq!(table.route(id), AgentRoute::Datagram);
    assert!(table.stream(id).is_some());
}

#[test]
fn agent_stream_slot_quota_blocks_only_that_stream() {
    let mut table = StreamTable::new();
    let id_a: u128 = 201;
    let id_b: u128 = 202;
    table.open_stream(id_a, false);
    table.open_stream(id_b, false);
    for _ in 0..STREAM_CHANNEL_QUOTA {
        assert_eq!(table.acquire_stream_slot(id_a), SlotOutcome::Acquired);
    }
    assert_eq!(table.acquire_stream_slot(id_a), SlotOutcome::Wait);
    assert_eq!(table.acquire_stream_slot(id_b), SlotOutcome::Acquired);
    assert_eq!(table.acquire_stream_slot(id_a), SlotOutcome::Wait);
    assert!(table.release_stream_slot(id_a));
    assert_eq!(table.acquire_stream_slot(id_a), SlotOutcome::Acquired);
}

#[test]
fn agent_stream_slot_quota_aborts_when_stream_removed() {
    let mut table = StreamTable::new();
    let id: u128 = 203;
    table.open_stream(id, false);
    for _ in 0..STREAM_CHANNEL_QUOTA {
        assert_eq!(table.acquire_stream_slot(id), SlotOutcome::Acquired);
    }
    assert_eq!(table.acquire_stream_slot(id), SlotOutcome::Wait);
    table.drop_stream(id);
    assert_eq!(table.acquire_stream_slot(id), SlotOutcome::Gone);
    assert!(!table.release_stream_slot(id));
}

#[test]
fn data_channel_task_counts_bytes_in_both_directions() {
    let mut table = StreamTable::new();
    let mut traffic = TrafficStats::new();
    assert_eq!(bound_channel(&ControlMessage::DataBound { channel_id: 1 }), Some(1));
    traffic.channel_bound(1);
    let down = encode_stream_data(7, &vec![0xAB; 100]).unwrap();
    assert_eq!(
        frame_arrived(&mut table, &mut traffic, 1, &down, 0),
        Arrival::Waiting(BufferOutcome::Stored)
    );
    assert_eq!(traffic.counters(1).down_bytes, 100);
    assert!(traffic.counters(1).connected);
    let up = encode_stream_data(7, &vec![0xCC; 200]).unwrap();
    let (freed, payload) = frame_leaves(&mut table, &up);
    assert_eq!((freed, payload), (None, 200));
    frame_sent(&mut traffic, 1, payload);
    assert_eq!(traffic.counters(1).up_bytes, 200);
    traffic.channel_lost(1);
    assert!(!traffic.counters(1).connected);
    assert_eq!(traffic.counters(1).up_bytes, 200);
    assert_eq!(traffic.counters(1).down_bytes, 100);
}

#[test]
fn pending_buffer_grows_past_byte_budget_without_dropping() {
    let mut table = StreamTable::new();
    let id: u128 = 91;
    for _ in 0..10 {
        table.buffer_pending_frame(id, &[0xAB; 4], 16, usize::MAX, 0);
    }
    assert_eq!(table.pending_size(id), Some((10, 40)));
    let frames = table.open_stream(id, false);
    assert_eq!(frames.len(), 10, "no frame may be dropped before StreamOpen");
    assert!(frames.iter().all(|frame| frame == &vec![0xAB; 4]));
}

#[test]
fn pending_buffer_stops_growing_at_hard_limit() {
    let mut table = StreamTable::new();
    let id: u128 = 92;
    let hard_limit = 16;
    let mut outcomes = Vec::new();
    for _ in 0..10 {
        outcomes.push(table.buffer_pending_frame(id, &[0xAB; 4], 16, hard_limit, 0));
    }
    assert_eq!(table.pending_size(id), Some((4, hard_limit)));
    assert_eq!(
        table.buffer_pending_frame(id, &[0xAB; 4], 16, hard_limit, 0),
        BufferOutcome::Dropped
    );
    assert_eq!(table.pending_size(id), Some((4, hard_limit)));
    assert_eq!(outcomes[0], BufferOutcome::Stored);
    assert_eq!(outcomes[3], BufferOutcome::StoredOverBudget);
    assert_eq!(outcomes[4], BufferOutcome::Dropped);
}

#[test]
fn settings_reconnect_ignores_empty_server_url() {
    let current = settings();
    let incoming = AgentSettings { server_url: String::new(), ..current.clone() };
    assert!(!settings_reconnect_decision(&current, &incoming));
    let moved = AgentSettings {
        server_url: "ws://other.example.com/control".into(),
        ..current.clone()
    };
    assert!(settings_reconnect_decision(&current, &moved));
    let more_channels = AgentSettings { data_channels: 4, ..current.clone() };
    assert!(settings_reconnect_decision(&current, &more_channels));
}

#[test]
fn traffic_stats_accumulate_across_channel_reconnects() {
    let mut stats = TrafficStats::new();
    stats.channel_bound(1);
    stats.count_up(1, 1000);
    stats.count_down(1, 500);
    stats.channel_lost(1);
    stats.channel_bound(1);
    stats.count_up(1, 24);
    let rebound = stats.counters(1);
    assert_eq!(rebound.up_bytes, 1024);
    assert_eq!(rebound.down_bytes, 500);
    assert!(rebound.connected);
}

#[test]
fn ipc_snapshot_serializes_and_totals() {
    let mut traffic = TrafficStats::new();
    traffic.channel_bound(1);
    traffic.count_up(1, 1000);
    traffic.count_down(1, 24);
    let config = AgentSettings { device_name: "test".into(), ..settings() };
    let snapshot = traffic.snapshot(config, Some(1_752_000_000));
    assert_eq!(snapshot.settings.device_name, "test");
    assert_eq!(snapshot.settings_synced_at, Some(1_752_000_000));
    assert_eq!(snapshot.channels.len(), 1);
    assert_eq!(snapshot.channels[0].channel_id, 1);
    assert_eq!(snapshot.channels[0].up_bytes, 1000);
    assert_eq!(snapshot.channels[0].down_bytes, 24);
    assert!(snapshot.channels[0].connected);
    assert_eq!(
        snapshot.totals,
        IpcTrafficTotals { up_bytes: 1000, down_bytes: 24, total_bytes: 1024 }
    );
}

#[test]
fn snapshot_lists_channels_in_order() {
    let mut traffic = TrafficStats::new();
    for channel in [3, 1, 2] {
        traffic.channel_bound(channel);
        traffic.count_up(channel, channel as usize);
    }
    traffic.disconnect_all();
    let snapshot = traffic.snapshot(settings(), None);
    let ids: Vec<u16> = snapshot.channels.iter().map(|c| c.channel_id).collect();
    assert_eq!(ids, vec![1, 2, 3]);
    assert!(snapshot.channels.iter().all(|c| !c.connected));
    assert_eq!(snapshot.totals.total_bytes, 6);
}

#[test]
fn frames_reach_streams_in_order() {
    let mut table = StreamTable::new();
    let mut traffic = TrafficStats::new();
    for n in 0..3u8 {
        let frame = encode_stream_data(9, &[n]).unwrap();
        frame_arrived(&mut table, &mut traffic, 2, &frame, 0);
    }
    assert_eq!(table.open_stream(9, false), vec![vec![0], vec![1], vec![2]]);
    let frame = encode_stream_data(9, &[3]).unwrap();
    assert_eq!(frame_arrived(&mut table, &mut traffic, 2, &frame, 0), Arrival::Bytes(9));
    table.open_stream(10, true);
    let datagram = encode_stream_data(10, &[]).unwrap();
    assert_eq!(frame_arrived(&mut table, &mut traffic, 2, &datagram, 0), Arrival::Datagram(10));
    assert_eq!(frame_arrived(&mut table, &mut traffic, 2, &[1, 2], 0), Arrival::Ignored);
    assert_eq!(traffic.counters(2).down_bytes, 4);
    assert_eq!(frame_leaves(&mut table, &[1, 2]), (None, 0));
    assert_eq!(table.acquire_stream_slot(9), SlotOutcome::Acquired);
    assert_eq!(frame_leaves(&mut table, &frame), (Some(9), 1));
    assert_eq!(table.stream(9).unwrap().outstanding, 0);
    frame_sent(&mut traffic, 5, 0);
    assert_eq!(traffic.snapshot(settings(), None).channels.len(), 1);
}

#[test]
fn waiting_frames_expire() {
    let mut table = StreamTable::new();
    table.buffer_pending_frame(1, b"x", PENDING_STREAM_BYTES, PENDING_STREAM_HARD_BYTES, 0);
    table.buffer_pending_frame(2, b"y", PENDING_STREAM_BYTES, PENDING_STREAM_HARD_BYTES, SECOND);
    table.expire_pending(10 * SECOND - 1);
    assert!(table.pending_size(1).is_some());
    table.expire_pending(10 * SECOND);
    assert!(table.pending_size(1).is_none());
    assert!(table.pending_size(2).is_some());
    table.close_stream(2);
    assert!(table.pending_size(2).is_none());
    table.clear();
}

#[test]
fn first_tunnels_open_channels_once() {
    let mut session = AgentSession::new(settings(), None, 2, 0);
    let tunnels = vec![spec("a", TunnelKind::Tcp), spec("a", TunnelKind::Udp)];
    let registered =
        ControlMessage::Registered { device_id: "d".into(), tunnels: tunnels.clone() };
    assert_eq!(session.handle(registered, 0), Action::OpenChannels(2));
    assert_eq!(
        session.handle(ControlMessage::SyncTunnels { tunnels }, 0),
        Action::OpenChannels(0)
    );
    // Of two tunnels with one id the later counts.
    assert_eq!(session.find_spec("a"), Some(spec("a", TunnelKind::Udp)));
    assert_eq!(session.find_spec("b"), None);
}

#[test]
fn streams_open_on_bound_channels() {
    let mut session = AgentSession::new(settings(), None, 2, 0);
    let open = |id: &str, tunnel: &str, channel: u16| ControlMessage::StreamOpen {
        stream_id: id.into(),
        tunnel_id: tunnel.into(),
        data_channel: channel,
    };
    assert_eq!(
        session.handle(open("7", "a", 1), 0),
        Action::Refuse { stream_id: "7".into(), reason: "unknown_tunnel".into() }
    );
    session.handle(ControlMessage::SyncTunnels { tunnels: vec![spec("a", TunnelKind::Tcp)] }, 0);
    assert_eq!(
        session.handle(open("7", "a", 1), 0),
        Action::Refuse { stream_id: "7".into(), reason: "data_channel_unavailable".into() }
    );
    session.channel_bound(1);
    assert_eq!(session.handle(open("x7", "a", 1), 0), Action::Nothing);
    session.streams().buffer_pending_frame(7, b"early", 16, 1024, 0);
    assert_eq!(
        session.handle(open("7", "a", 1), 0),
        Action::Open {
            id: 7,
            spec: spec("a", TunnelKind::Tcp),
            data_channel: 1,
            frames: vec![b"early".to_vec()],
        }
    );
    assert!(session.streams().stream(7).is_some());
    let close = ControlMessage::StreamClose { stream_id: "7".into(), reason: None };
    assert_eq!(
        session.handle(close, 0),
        Action::Close { id: 7, reason: "server_close".into() }
    );
    assert!(session.streams().stream(7).is_none());
    session.channel_lost(1);
    assert_eq!(
        session.handle(open("8", "a", 1), 0),
        Action::Refuse { stream_id: "8".into(), reason: "data_channel_unavailable".into() }
    );
    let closed = ControlMessage::StreamClose {
        stream_id: "8".into(),
        reason: Some("tunnel_disabled".into()),
    };
    assert_eq!(
        session.handle(closed, 0),
        Action::Close { id: 8, reason: "tunnel_disabled".into() }
    );
}

#[test]
fn pushed_settings_are_stored_and_kept() {
    let mut session = AgentSession::new(settings(), None, 2, 0);
    let pushed = AgentSettings {
        server_url: String::new(),
        log_level: "debug".into(),
        heartbeat_secs: 5,
        ..settings()
    };
    let action = session.handle(ControlMessage::SettingsSync { settings: pushed.clone() }, 99);
    assert_eq!(
        action,
        Action::Settings {
            updates: pairs(&[
                ("DEVICE_NAME", "pc"),
                ("DATA_CHANNELS", "2"),
                ("HEARTBEAT_SECS", "5"),
                ("PONG_TIMEOUT_SECS", "25"),
                ("RECONNECT_MIN_SECS", "1"),
                ("RECONNECT_MAX_SECS", "10"),
                ("LOG_LEVEL", "debug"),
                ("SETTINGS_SYNCED_AT", "99"),
            ]),
            log_level: "debug".into(),
            reconnect: false,
        }
    );
    assert_eq!(session.synced_at(), Some(99));
    assert_eq!(session.end(false), RunOutcome::Disconnected);
    session.begin(3, 5);
    assert_eq!(session.settings(), pushed);
    assert_eq!(
        session.handle(ControlMessage::SyncTunnels { tunnels: vec![] }, 0),
        Action::OpenChannels(3)
    );
    assert_eq!(updates_for_settings(&settings(), 1)[0].0, "SERVER_URL");
}

#[test]
fn other_requests_are_answered() {
    let mut session = AgentSession::new(settings(), Some(3), 2, 0);
    assert_eq!(
        session.handle(ControlMessage::BandwidthConfig { mbps: 9 }, 0),
        Action::Bandwidth(9)
    );
    assert_eq!(
        session.handle(ControlMessage::TokenRotate { token: "t".into() }, 0),
        Action::Token { updates: pairs(&[("TOKEN", "t"), ("ENROLL_CODE", "")]) }
    );
    let probe = ControlMessage::ProbeLocal { probe_id: "p".into(), tunnel_id: "a".into() };
    assert_eq!(
        session.handle(probe, 0),
        Action::Probe { probe_id: "p".into(), spec: None }
    );
    assert_eq!(session.handle(ControlMessage::DataBound { channel_id: 1 }, 0), Action::Nothing);
    assert_eq!(session.end(true), RunOutcome::ReconnectNow);
    let restart = ControlMessage::RestartAgent { restart_id: "r".into(), reason: None };
    assert_eq!(
        session.handle(restart, 0),
        Action::Restart {
            progress: ControlMessage::RestartProgress {
                restart_id: "r".into(),
                progress: 30,
                phase: "stopping".into(),
                message: Some("代理已收到重启指令,正在停止本地隧道".into()),
            },
        }
    );
    assert_eq!(session.end(true), RunOutcome::Restarting { restart_id: "r".into() });
    session.begin(2, 0);
    assert_eq!(session.end(true), RunOutcome::ReconnectNow);
}

#[test]
fn silence_ends_a_session() {
    let mut session = AgentSession::new(settings(), None, 2, 0);
    assert_eq!(session.tick(25 * SECOND), Tick::Beat { latency_ms: 0 });
    assert_eq!(session.tick(25 * SECOND + 1), Tick::Timeout);
    session.ping_sent(26 * SECOND);
    session.pong(26 * SECOND + 42_900_000);
    assert_eq!(session.tick(27 * SECOND), Tick::Beat { latency_ms: 42 });
    session.pong(28 * SECOND);
    assert_eq!(session.tick(28 * SECOND), Tick::Beat { latency_ms: 42 });
}

#[test]
fn bridges_tell_why_they_end() {
    let mut table = StreamTable::new();
    table.open_stream(7, false);
    assert_eq!(
        bridge_ended(&mut table, 7, BridgeEnd::ConnectFailed),
        ControlMessage::StreamClose {
            stream_id: "7".into(),
            reason: Some("local_connect_failed".into()),
        }
    );
    assert!(table.stream(7).is_none());
    assert_eq!(
        bridge_ended(&mut table, 8, BridgeEnd::BindFailed),
        ControlMessage::StreamClose {
            stream_id: "8".into(),
            reason: Some("local_bind_failed".into()),
        }
    );
    assert_eq!(
        bridge_ended(&mut table, 9, BridgeEnd::Ended),
        ControlMessage::StreamClose { stream_id: "9".into(), reason: None }
    );
    assert_eq!(
        refusal("x".into(), "unknown_tunnel".into()),
        ControlMessage::StreamClose {
            stream_id: "x".into(),
            reason: Some("unknown_tunnel".into()),
        }
    );
    assert_eq!(local_target(&spec("a", TunnelKind::Tcp)), "127.0.0.1:8080");
}

#[test]
fn probes_have_texts() {
    let answer = |attempt| match probe_result("p".into(), attempt) {
        ControlMessage::ProbeResult { probe_id, ok, message } => {
            assert_eq!(probe_id, "p");
            (ok, message.unwrap())
        }
        _ => unreachable!(),
    };
    assert_eq!(answer(None), (false, "unknown_tunnel".to_string()));
    assert_eq!(
        answer(Some((TunnelKind::Tcp, ProbeStep::Connected))),
        (true, "local tcp service reachable".to_string())
    );
    assert_eq!(
        answer(Some((TunnelKind::Http, ProbeStep::Refused("no".into())))),
        (false, "local tcp connect failed: no".to_string())
    );
    assert_eq!(
        answer(Some((TunnelKind::Tcp, ProbeStep::TimedOut))),
        (false, "local tcp connect timed out".to_string())
    );
    assert_eq!(
        answer(Some((TunnelKind::Udp, ProbeStep::Connected))),
        (true, "udp socket ready; real reachability requires a live client".to_string())
    );
    assert_eq!(
        answer(Some((TunnelKind::Udp, ProbeStep::Refused("no".into())))),
        (false, "udp local connect failed: no".to_string())
    );
    assert_eq!(
        answer(Some((TunnelKind::Udp, ProbeStep::TimedOut))),
        (false, "udp local connect timed out".to_string())
    );
    assert_eq!(
        answer(Some((TunnelKind::Udp, ProbeStep::BindFailed("no".into())))),
        (false, "udp bind failed: no".to_string())
    );
}

#[test]
fn enrollment_replies_are_acted_on() {
    assert_eq!(
        enroll_reply(ControlMessage::Enrolled { token: "t".into(), device_id: "d".into() }),
        EnrollReply::Approved {
            device_id: "d".into(),
            updates: pairs(&[("TOKEN", "t"), ("ENROLL_CODE", "")]),
        }
    );
    assert_eq!(
        enroll_reply(ControlMessage::Error { code: "enroll_denied".into(), message: "No".into() }),
        EnrollReply::Rejected {
            notice: "Enrollment enroll_denied: No. A new code will be generated.".into(),
            updates: pairs(&[("ENROLL_CODE", "")]),
        }
    );
    assert_eq!(
        enroll_reply(ControlMessage::BandwidthConfig { mbps: 1 }),
        EnrollReply::Ignored
    );
    assert_eq!(updates_for_refusal(), pairs(&[("ENROLL_CODE", "")]));
}

#[test]
fn failed_sessions_wait_longer() {
    let mut retry = Retry::new();
    assert_eq!(after_run(&mut retry, None), NextStep::Wait { attempt: 0 });
    assert_eq!(
        after_run(&mut retry, Some(RunOutcome::Disconnected)),
        NextStep::Wait { attempt: 1 }
    );
    assert_eq!(retry.attempt, 2);
    assert_eq!(
        after_run(&mut retry, Some(RunOutcome::Restarting { restart_id: "r".into() })),
        NextStep::Restart { restart_id: "r".into() }
    );
    assert_eq!(retry.attempt, 2);
    assert_eq!(after_run(&mut retry, Some(RunOutcome::ReconnectNow)), NextStep::Connect);
    assert_eq!(retry.attempt, 0);
    let mut last = Retry { attempt: u32::MAX };
    assert_eq!(last.failed(), u32::MAX);
    assert_eq!(last.attempt, u32::MAX);
    last.succeeded();
    assert_eq!(last.attempt, 0);
    assert_eq!(bound_channel(&ControlMessage::BandwidthConfig { mbps: 1 }), None);
}
