use std::collections::{HashMap, VecDeque};
use tunnel_control::ids::new_id;
use tunnel_control::plane::{
    remove_heartbeat_if_owned, remove_session_if_owned, DataPlane, DatagramVerdict, QueueResult,
    RouteOutcome, RouteTarget, SlotOutcome,
};
use tunnel_control::plane_model::{HeartbeatEntry, UdpSession, SECOND, STREAM_CHANNEL_QUOTA};
use tunnel_control::server_session::{peer_key, send_step, SendStep};

struct Queue {
    cap: usize,
    items: VecDeque<Vec<u8>>,
    closed: bool,
}

impl Queue {
    fn new(cap: usize) -> Self {
        Queue { cap, items: VecDeque::new(), closed: false }
    }

    fn push(&mut self, data: &[u8]) -> QueueResult {
        if self.closed {
            QueueResult::Closed
        } else if self.items.len() >= self.cap {
            QueueResult::Full
        } else {
            self.items.push_back(data.to_vec());
            QueueResult::Sent
        }
    }
}

fn route(plane: &mut DataPlane, queue: &mut Queue, id: u128, data: &[u8]) -> RouteOutcome {
    let target = plane.route_target(id);
    let sent = match target {
        RouteTarget::Nothing => QueueResult::Sent,
        _ => queue.push(data),
    };
    plane.settle_route(id, target, sent, 1)
}

fn udp(device_id: u128, tunnel_id: u128, peer: u64) -> UdpSession {
    UdpSession { device_id, connection_id: new_id(), tunnel_id, data_channel: 1, peer, last_seen: 0 }
}

#[test]
fn stale_control_cleanup_keeps_new_session() {
    let device = new_id();
    let old_connection = new_id();
    let new_connection = new_id();
    let mut sessions: HashMap<u128, u128> = HashMap::new();
    sessions.insert(device, new_connection);
    assert!(!remove_session_if_owned(&mut sessions, device, old_connection));
    assert!(sessions.contains_key(&device));
    assert!(remove_session_if_owned(&mut sessions, device, new_connection));
    assert!(!sessions.contains_key(&device));
}

#[test]
fn stale_control_cleanup_keeps_new_heartbeat() {
    let device = new_id();
    let old_connection = new_id();
    let new_connection = new_id();
    let mut heartbeats: HashMap<u128, HeartbeatEntry> = HashMap::new();
    heartbeats.insert(
        device,
        HeartbeatEntry { connection_id: new_connection, latency_ms: 12, last_seen: 0 },
    );
    assert!(!remove_heartbeat_if_owned(&mut heartbeats, device, old_connection));
    assert!(heartbeats.contains_key(&device));
    assert!(remove_heartbeat_if_owned(&mut heartbeats, device, new_connection));
    assert!(!heartbeats.contains_key(&device));
}

#[test]
fn wait_for_data_channel_returns_existing_channel() {
    let mut plane = DataPlane::new();
    let device = new_id();
    let connection = new_id();
    plane.open_session(device, connection);
    assert_eq!(plane.bind_data_channel(device, 4), Some((connection, 1)));
    assert_eq!(plane.pick_data_channel(device), Some(1));
}

#[test]
fn wait_for_data_channel_waits_for_bind() {
    let mut plane = DataPlane::new();
    let device = new_id();
    let connection = new_id();
    plane.open_session(device, connection);
    assert_eq!(plane.pick_data_channel(device), None);
    assert_eq!(plane.recheck_data_channel(device), Ok(None));
    plane.bind_data_channel(device, 4);
    assert_eq!(plane.recheck_data_channel(device), Ok(Some(1)));
}

#[test]
fn wait_for_data_channel_aborts_when_session_vanishes() {
    let mut plane = DataPlane::new();
    let device = new_id();
    let connection = new_id();
    plane.open_session(device, connection);
    assert_eq!(plane.pick_data_channel(device), None);
    assert!(plane.end_session(device, connection));
    assert_eq!(plane.recheck_data_channel(device), Err(()));
}

#[test]
fn wait_for_data_channel_times_out_without_channel() {
    let mut plane = DataPlane::new();
    let device = new_id();
    plane.open_session(device, new_id());
    assert_eq!(plane.pick_data_channel(device), None);
    assert_eq!(plane.recheck_data_channel(device), Ok(None));
}

#[test]
fn pick_data_channel_ignores_stale_channels() {
    let mut plane = DataPlane::new();
    let device = new_id();
    let current = new_id();
    let stale = new_id();
    plane.open_session(device, stale);
    assert_eq!(plane.bind_data_channel(device, 4), Some((stale, 1)));
    plane.open_session(device, current);
    assert_eq!(plane.bind_data_channel(device, 4), Some((current, 2)));
    assert_eq!(plane.pick_data_channel(device), Some(2));
}

#[test]
fn routes_tcp_and_udp_concurrently_without_hanging() {
    let mut plane = DataPlane::new();
    let device = new_id();
    let tcp_id: u128 = 1;
    let udp_id: u128 = 2;
    let mut tcp_queue = Queue::new(4096);
    let mut udp_queue = Queue::new(4096);
    assert!(plane.try_register_stream(tcp_id, device, new_id(), 1, 100));
    plane.insert_udp_session(udp_id, udp(device, new_id(), peer_key(0x7f00_0001, 1000)));
    for _ in 0..20 {
        for _ in 0..50 {
            assert_eq!(
                route(&mut plane, &mut tcp_queue, tcp_id, b"tcp-data"),
                RouteOutcome::Delivered
            );
            assert_eq!(
                route(&mut plane, &mut udp_queue, udp_id, b"udp-data"),
                RouteOutcome::Delivered
            );
        }
    }
    assert_eq!(tcp_queue.items.len(), 1000);
    assert_eq!(udp_queue.items.len(), 1000);
}

#[test]
fn closing_one_channel_preserves_the_other() {
    let mut plane = DataPlane::new();
    let device = new_id();
    for (id, channel) in [(1u128, 1u16), (2, 1), (3, 2), (4, 2)] {
        assert!(plane.try_register_stream(id, device, new_id(), channel, 8));
    }
    let mut removed = plane.close_channel_streams(device, 1);
    removed.sort_unstable();
    assert_eq!(removed, vec![1, 2]);
    assert!(plane.stream(1).is_none());
    assert!(plane.stream(2).is_none());
    assert_eq!(plane.stream(3).unwrap().data_channel, 2);
    assert_eq!(plane.stream(4).unwrap().data_channel, 2);
}

#[test]
fn routes_zero_length_udp_datagram() {
    let mut plane = DataPlane::new();
    let udp_id: u128 = 9;
    let mut queue = Queue::new(8);
    plane.insert_udp_session(udp_id, udp(new_id(), new_id(), peer_key(0x7f00_0001, 1000)));
    assert_eq!(route(&mut plane, &mut queue, udp_id, &[]), RouteOutcome::Delivered);
    assert!(queue.items.pop_front().unwrap().is_empty());
}

#[test]
fn tcp_queue_full_waits_instead_of_closing_stream() {
    let mut plane = DataPlane::new();
    let tcp_id: u128 = 77;
    let mut queue = Queue::new(1);
    assert!(plane.try_register_stream(tcp_id, new_id(), new_id(), 1, 8));
    assert_eq!(route(&mut plane, &mut queue, tcp_id, b"first"), RouteOutcome::Delivered);
    // While the second frame waits for room nothing is settled.
    assert_eq!(plane.route_target(tcp_id), RouteTarget::Stream);
    assert_eq!(queue.push(b"second"), QueueResult::Full);
    assert!(plane.stream(tcp_id).is_some());
    assert_eq!(queue.items.pop_front().as_deref(), Some(b"first".as_slice()));
    assert_eq!(route(&mut plane, &mut queue, tcp_id, b"second"), RouteOutcome::Delivered);
    assert_eq!(queue.items.pop_front().as_deref(), Some(b"second".as_slice()));
    assert!(plane.stream(tcp_id).is_some());
}

#[test]
fn tcp_queue_full_times_out_and_closes_stream() {
    let mut plane = DataPlane::new();
    let tcp_id: u128 = 78;
    let mut queue = Queue::new(1);
    assert!(plane.try_register_stream(tcp_id, new_id(), new_id(), 1, 8));
    assert_eq!(route(&mut plane, &mut queue, tcp_id, b"first"), RouteOutcome::Delivered);
    assert_eq!(
        route(&mut plane, &mut queue, tcp_id, b"second"),
        RouteOutcome::StreamSendTimeout(tcp_id)
    );
    assert!(plane.stream(tcp_id).is_none());
}

#[test]
fn tcp_stream_channel_closed_removes_entry() {
    let mut plane = DataPlane::new();
    let tcp_id: u128 = 79;
    let mut queue = Queue::new(1);
    queue.closed = true;
    assert!(plane.try_register_stream(tcp_id, new_id(), new_id(), 1, 8));
    assert_eq!(
        route(&mut plane, &mut queue, tcp_id, b"data"),
        RouteOutcome::StreamChannelClosed(tcp_id)
    );
    assert!(plane.stream(tcp_id).is_none());
}

#[test]
fn tunnel_max_connections_limits_concurrent_tcp_streams() {
    let mut plane = DataPlane::new();
    let device = new_id();
    let tunnel_a = new_id();
    let tunnel_b = new_id();
    assert!(plane.try_register_stream(1, device, tunnel_a, 1, 2));
    assert!(plane.try_register_stream(2, device, tunnel_a, 1, 2));
    assert!(!plane.try_register_stream(3, device, tunnel_a, 1, 2));
    assert!(plane.stream(3).is_none());
    assert!(plane.try_register_stream(4, device, tunnel_b, 1, 2));
    assert!(plane.try_register_stream(5, new_id(), tunnel_a, 1, 2));
    plane.remove_stream_entry(1);
    assert!(plane.try_register_stream(6, device, tunnel_a, 1, 2));
}

#[test]
fn stream_slot_quota_blocks_only_that_stream() {
    let mut plane = DataPlane::new();
    let device = new_id();
    let id_a: u128 = 101;
    let id_b: u128 = 102;
    assert!(plane.try_register_stream(id_a, device, new_id(), 1, 8));
    assert!(plane.try_register_stream(id_b, device, new_id(), 1, 8));
    for _ in 0..STREAM_CHANNEL_QUOTA {
        assert_eq!(plane.acquire_stream_slot(id_a), SlotOutcome::Acquired);
    }
    assert_eq!(plane.acquire_stream_slot(id_a), SlotOutcome::Wait);
    assert_eq!(plane.acquire_stream_slot(id_b), SlotOutcome::Acquired);
    assert_eq!(plane.acquire_stream_slot(id_a), SlotOutcome::Wait);
    assert!(plane.release_stream_slot(id_a));
    assert_eq!(plane.acquire_stream_slot(id_a), SlotOutcome::Acquired);
}

#[test]
fn stream_slot_quota_aborts_when_stream_removed() {
    let mut plane = DataPlane::new();
    let id: u128 = 103;
    assert!(plane.try_register_stream(id, new_id(), new_id(), 1, 8));
    for _ in 0..STREAM_CHANNEL_QUOTA {
        assert_eq!(plane.acquire_stream_slot(id), SlotOutcome::Acquired);
    }
    assert_eq!(plane.acquire_stream_slot(id), SlotOutcome::Wait);
    plane.remove_stream_entry(id);
    assert_eq!(plane.acquire_stream_slot(id), SlotOutcome::Gone);
}

#[test]
fn pick_data_channel_prefers_lowest_load() {
    let mut plane = DataPlane::new();
    let device = new_id();
    let connection = new_id();
    plane.open_session(device, connection);
    plane.bind_data_channel(device, 4);
    plane.bind_data_channel(device, 4);
    assert!(plane.try_register_stream(10, device, new_id(), 2, 10));
    assert_eq!(plane.pick_data_channel(device), Some(1));
}

#[test]
fn channel_load_counters_track_concurrent_stream_registration() {
    let mut plane = DataPlane::new();
    let device = new_id();
    let tunnel = new_id();
    for id in 0..50_u128 {
        assert!(
            plane.try_register_stream(id, device, tunnel, 1, 100),
            "concurrent registration must not exceed the configured limit"
        );
    }
    assert_eq!(plane.channel_load(device, 1), 50);
    for id in 0..20_u128 {
        plane.remove_stream_entry(id);
    }
    assert_eq!(plane.channel_load(device, 1), 30);
    let removed = plane.close_channel_streams(device, 1);
    assert_eq!(removed.len(), 30);
    assert_eq!(plane.channel_load(device, 1), 0);
}

#[test]
fn channel_load_counts_streams_and_sessions() {
    let mut plane = DataPlane::new();
    let device = new_id();
    let tunnel = new_id();
    assert!(plane.try_register_stream(1, device, tunnel, 1, 9));
    assert!(plane.try_register_stream(2, device, tunnel, 2, 9));
    // The second session of a client takes over its place in the index.
    plane.insert_udp_session(3, udp(device, tunnel, 5));
    plane.insert_udp_session(4, udp(device, tunnel, 5));
    assert_eq!((plane.channel_load(device, 1), plane.channel_load(device, 2)), (3, 1));
    plane.remove_udp_session(3);
    plane.remove_udp_session(3);
    assert_eq!((plane.channel_load(device, 1), plane.channel_load(device, 2)), (2, 1));
    plane.close_channel_streams(device, 1);
    assert_eq!((plane.channel_load(device, 1), plane.channel_load(device, 2)), (0, 1));
}

#[test]
fn udp_peer_index_matches_sessions_and_cleans_up() {
    let mut plane = DataPlane::new();
    let device = new_id();
    let tunnel = new_id();
    let peer_a = peer_key(0x7f00_0001, 1000);
    let peer_b = peer_key(0x7f00_0001, 2000);
    let peer_c = peer_key(0x0a00_0001, 3000);
    for (id, peer) in [(1_u128, peer_a), (2, peer_b), (3, peer_c)] {
        plane.insert_udp_session(id, udp(device, tunnel, peer));
    }
    assert_eq!(plane.udp_peer(tunnel, peer_a), Some(1));
    assert_eq!(plane.udp_peer(tunnel, peer_b), Some(2));
    assert_eq!(plane.udp_peer(tunnel, peer_c), Some(3));
    assert_eq!(plane.channel_load(device, 1), 3);
    plane.remove_udp_session(2);
    assert_eq!(plane.channel_load(device, 1), 2);
    assert_eq!(plane.udp_peer(tunnel, peer_b), None);
    assert_eq!(plane.udp_peer(tunnel, peer_a), Some(1));
    plane.remove_udp_session(1);
    plane.remove_udp_session(3);
    assert_eq!(plane.udp_peer(tunnel, peer_a), None);
    assert_eq!(plane.udp_peer(tunnel, peer_c), None);
    assert_eq!(plane.admit_datagram(device, tunnel, peer_a, 0), DatagramVerdict::Full);
    assert_eq!(plane.admit_datagram(device, tunnel, peer_a, 1), DatagramVerdict::Offline);
    assert_eq!(plane.channel_load(device, 1), 0);
}

#[test]
fn ties_between_channels_go_to_the_lowest() {
    let mut plane = DataPlane::new();
    let device = 5;
    plane.open_session(device, 6);
    for expected in 1..=3 {
        assert_eq!(plane.bind_data_channel(device, 3), Some((6, expected)));
    }
    assert_eq!(plane.bind_data_channel(device, 3), None);
    assert_eq!(plane.pick_data_channel(device), Some(1));
    assert!(plane.try_register_stream(1, device, 9, 1, 10));
    assert_eq!(plane.pick_data_channel(device), Some(2));
    assert!(plane.try_register_stream(2, device, 9, 2, 10));
    assert!(plane.try_register_stream(3, device, 9, 3, 10));
    assert_eq!(plane.pick_data_channel(device), Some(1));
}

#[test]
fn freed_channel_numbers_are_used_again() {
    let mut plane = DataPlane::new();
    plane.open_session(5, 6);
    plane.bind_data_channel(5, 3);
    plane.bind_data_channel(5, 3);
    assert!(plane.try_register_stream(40, 5, 9, 1, 10));
    plane.insert_udp_session(41, udp(5, 9, 77));
    let closed = plane.drop_data_channel(5, 1);
    assert_eq!(closed, vec![40, 41]);
    assert_eq!(plane.channel(5, 1), None);
    assert_eq!(plane.bind_data_channel(5, 3), Some((6, 1)));
    assert_eq!(plane.bind_data_channel(7, 3), None);
}

#[test]
fn loads_never_go_below_zero() {
    let mut plane = DataPlane::new();
    plane.decrement_channel_load(1, 1);
    assert_eq!(plane.channel_load(1, 1), 0);
    plane.increment_channel_load(1, 1);
    plane.increment_channel_load(1, 1);
    plane.decrement_channel_load(1, 1);
    assert_eq!(plane.channel_load(1, 1), 1);
    plane.remove_stream_entry(12);
    plane.remove_udp_session(12);
    assert_eq!(plane.channel_load(1, 1), 1);
}

#[test]
fn ended_control_leaves_newer_connection_alone() {
    let mut plane = DataPlane::new();
    let (device, old, new) = (1, 10, 20);
    plane.open_session(device, old);
    plane.bind_data_channel(device, 4);
    assert!(plane.try_register_stream(100, device, 7, 1, 10));
    plane.record_heartbeat(device, old, 5, 0);
    plane.open_session(device, new);
    plane.bind_data_channel(device, 4);
    assert!(plane.try_register_stream(200, device, 7, 2, 10));
    plane.record_heartbeat(device, new, 6, 0);
    let (removed, teardown) = plane.end_control(device, old);
    assert!(!removed);
    assert_eq!(teardown.streams, vec![100]);
    assert_eq!(teardown.channels, vec![1]);
    assert_eq!(plane.session(device), Some(new));
    assert!(plane.stream(100).is_none());
    assert!(plane.stream(200).is_some());
    assert_eq!(plane.channel(device, 2), Some(new));
    assert_eq!(plane.flush_heartbeats(0), vec![(device, 6)]);
    let (removed, teardown) = plane.end_control(device, new);
    assert!(removed);
    assert_eq!(teardown.streams, vec![200]);
    assert_eq!(plane.session(device), None);
    assert!(plane.flush_heartbeats(0).is_empty());
}

#[test]
fn evicted_device_loses_everything() {
    let mut plane = DataPlane::new();
    assert!(plane.evict_device(1).is_none());
    plane.open_session(1, 10);
    plane.bind_data_channel(1, 4);
    assert!(plane.try_register_stream(100, 1, 7, 1, 10));
    let mut session = udp(1, 8, 3);
    session.connection_id = 10;
    plane.insert_udp_session(101, session);
    let teardown = plane.evict_device(1).unwrap();
    assert_eq!(teardown.streams, vec![100]);
    assert_eq!(teardown.udp, vec![101]);
    assert_eq!(plane.session(1), None);
    assert_eq!(plane.online_devices(), Vec::<u128>::new());
}

#[test]
fn connections_are_admitted_on_current_channels() {
    let mut plane = DataPlane::new();
    plane.open_session(1, 10);
    plane.bind_data_channel(1, 4);
    assert_eq!(plane.admit_connection(100, 1, 7, 1, 1), Some(10));
    assert_eq!(plane.admit_connection(101, 1, 7, 1, 1), None);
    assert_eq!(plane.admit_connection(102, 1, 8, 2, 1), None);
    plane.open_session(1, 20);
    assert_eq!(plane.admit_connection(103, 1, 8, 1, 1), None);
    assert_eq!(plane.tunnel_connections(1, 7), 1);
    plane.insert_udp_session(104, udp(1, 7, 3));
    assert_eq!(plane.tunnel_connections(1, 7), 2);
}

#[test]
fn datagrams_find_or_open_sessions() {
    let mut plane = DataPlane::new();
    assert_eq!(plane.admit_datagram(1, 7, 3, 10), DatagramVerdict::Offline);
    plane.open_session(1, 10);
    assert_eq!(plane.admit_datagram(1, 7, 3, 10), DatagramVerdict::NoChannel);
    plane.bind_data_channel(1, 4);
    assert_eq!(
        plane.admit_datagram(1, 7, 3, 10),
        DatagramVerdict::Open { connection_id: 10, data_channel: 1 }
    );
    let mut session = udp(1, 7, 3);
    session.connection_id = 10;
    plane.insert_udp_session(50, session);
    assert_eq!(plane.admit_datagram(1, 7, 3, 10), DatagramVerdict::Session(50));
    assert_eq!(plane.admit_datagram(1, 7, 4, 1), DatagramVerdict::Full);
    assert_eq!(plane.deliver_datagram(50, 1, 9 * SECOND), Some((1, 10)));
    assert_eq!(plane.udp_session(50).unwrap().last_seen, 9 * SECOND);
    assert_eq!(plane.deliver_datagram(51, 1, 9 * SECOND), None);
    plane.drop_invalid_udp_sessions(1, 11);
    assert!(plane.udp_session(50).is_some());
    plane.drop_invalid_udp_sessions(1, 10);
    assert!(plane.udp_session(50).is_none());
}

#[test]
fn idle_udp_sessions_expire() {
    let mut plane = DataPlane::new();
    plane.insert_udp_session(50, udp(1, 7, 3));
    plane.insert_udp_session(51, udp(1, 8, 3));
    assert!(plane.expire_udp_sessions(7, 120 * SECOND, 120).is_empty());
    assert_eq!(plane.expire_udp_sessions(7, 120 * SECOND + 1, 120), vec![50]);
    assert!(plane.udp_session(51).is_some());
    assert_eq!(plane.remove_tunnel_udp(8), vec![(51, 1)]);
    assert!(plane.udp_session(51).is_none());
}

#[test]
fn full_udp_queue_drops_and_closed_one_ends_session() {
    let mut plane = DataPlane::new();
    let mut queue = Queue::new(1);
    plane.insert_udp_session(50, udp(1, 7, 3));
    assert_eq!(route(&mut plane, &mut queue, 50, b"a"), RouteOutcome::Delivered);
    assert_eq!(plane.udp_session(50).unwrap().last_seen, 1);
    assert_eq!(route(&mut plane, &mut queue, 50, b"b"), RouteOutcome::Dropped);
    assert!(plane.udp_session(50).is_some());
    queue.closed = true;
    assert_eq!(route(&mut plane, &mut queue, 50, b"c"), RouteOutcome::UdpSessionGone(50));
    assert!(plane.udp_session(50).is_none());
    assert_eq!(route(&mut plane, &mut queue, 50, b"d"), RouteOutcome::Delivered);
}

#[test]
fn old_heartbeats_are_dropped() {
    let mut plane = DataPlane::new();
    plane.record_heartbeat(1, 10, 5, 0);
    plane.record_heartbeat(2, 20, u32::MAX, SECOND);
    let mut seen = plane.flush_heartbeats(180 * SECOND);
    seen.sort_unstable();
    assert_eq!(seen, vec![(1, 5), (2, -1)]);
    assert_eq!(plane.flush_heartbeats(180 * SECOND + 1), vec![(2, -1)]);
    assert_eq!(plane.flush_heartbeats(0), vec![(2, -1)]);
}

#[test]
fn shutdown_closes_every_stream() {
    let mut plane = DataPlane::new();
    assert!(plane.try_register_stream(100, 1, 7, 1, 10));
    plane.insert_udp_session(101, udp(2, 8, 3));
    let (tcp, udp_ids) = plane.close_all();
    assert_eq!(tcp, vec![(100, 1)]);
    assert_eq!(udp_ids, vec![(101, 2)]);
    assert!(plane.stream(100).is_none());
    assert!(plane.udp_session(101).is_none());
    assert_eq!(plane.channel_load(1, 1), 0);
    assert_eq!(plane.channel_load(2, 1), 0);
}

#[test]
fn closed_stream_frees_both_kinds() {
    let mut plane = DataPlane::new();
    assert!(plane.try_register_stream(100, 1, 7, 1, 10));
    plane.insert_udp_session(101, udp(1, 8, 3));
    plane.close_stream(100);
    plane.close_stream(101);
    assert!(plane.stream(100).is_none());
    assert!(plane.udp_session(101).is_none());
    assert!(!plane.release_stream_slot(100));
}

#[test]
fn teardown_touches_one_connection() {
    let mut plane = DataPlane::new();
    plane.open_session(1, 10);
    plane.bind_data_channel(1, 4);
    plane.open_session(2, 30);
    plane.bind_data_channel(2, 4);
    assert!(plane.try_register_stream(100, 1, 7, 1, 10));
    assert!(plane.try_register_stream(200, 2, 7, 1, 10));
    let teardown = plane.teardown_device_data_channels(1, 10);
    assert_eq!(teardown.channels, vec![1]);
    assert_eq!(teardown.streams, vec![100]);
    assert!(plane.stream(200).is_some());
    assert_eq!(plane.channel(2, 1), Some(30));
    assert_eq!(plane.channel(1, 1), None);
    plane.touch_udp_session(999, 5);
    let mut online = plane.online_devices();
    online.sort_unstable();
    assert_eq!(online, vec![1, 2]);
}

const MILLI: u64 = 1_000_000;

#[test]
fn send_control_to_session_reports_full_queue_without_waiting() {
    let mut queue = Queue::new(1);
    assert_eq!(send_step(queue.push(b"first"), None, 0), SendStep::Sent);
    assert_eq!(
        send_step(queue.push(b"heartbeat"), None, 0),
        SendStep::Failed,
        "full queue must report control unavailable"
    );
    queue.closed = true;
    assert_eq!(send_step(queue.push(b"heartbeat"), None, 0), SendStep::Failed);
}

#[test]
fn send_control_to_session_waits_until_queue_drains() {
    let mut queue = Queue::new(1);
    let deadline = Some(2 * SECOND);
    assert_eq!(send_step(queue.push(b"first"), deadline, 0), SendStep::Sent);
    assert_eq!(send_step(queue.push(b"heartbeat"), deadline, 0), SendStep::Wait(2 * SECOND));
    assert_eq!(
        send_step(queue.push(b"heartbeat"), deadline, 80 * MILLI),
        SendStep::Wait(1920 * MILLI)
    );
    queue.items.pop_front();
    assert_eq!(
        send_step(queue.push(b"heartbeat"), deadline, 100 * MILLI),
        SendStep::Sent,
        "timed send must succeed once the queue drains"
    );
}

#[test]
fn send_control_to_session_times_out_when_queue_stays_full() {
    let mut queue = Queue::new(1);
    let deadline = Some(50 * MILLI);
    assert_eq!(send_step(queue.push(b"first"), deadline, 0), SendStep::Sent);
    assert_eq!(send_step(queue.push(b"heartbeat"), deadline, 0), SendStep::Wait(50 * MILLI));
    assert_eq!(
        send_step(queue.push(b"heartbeat"), deadline, 40 * MILLI),
        SendStep::Wait(10 * MILLI)
    );
    assert_eq!(
        send_step(queue.push(b"heartbeat"), deadline, 50 * MILLI),
        SendStep::Failed,
        "timed send must fail once the deadline passes"
    );
    queue.closed = true;
    assert_eq!(send_step(queue.push(b"heartbeat"), deadline, 0), SendStep::Failed);
}
