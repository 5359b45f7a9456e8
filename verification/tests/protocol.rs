use serde_json::Value;
use tunnel_control::protocol::{
    accept_message, decode, decode_stream_data, encode, encode_stream_data, frame_message,
    AgentSettings, ControlMessage, ProtocolError, TunnelKind, TunnelSpec, MAX_FRAME_BYTES,
    PROTOCOL_VERSION, TCP_CHUNK_SIZE,
};

fn text(value: &str) -> Value {
    Value::String(value.to_string())
}

fn optional(value: &Option<String>) -> Value {
    match value {
        Some(inner) => text(inner),
        None => Value::Null,
    }
}

fn object(kind: &str, fields: Vec<(&str, Value)>) -> Value {
    let mut map = serde_json::Map::new();
    map.insert("type".to_string(), text(kind));
    for (name, value) in fields {
        map.insert(name.to_string(), value);
    }
    Value::Object(map)
}

fn spec_value(spec: &TunnelSpec) -> Value {
    let kind = match spec.kind {
        TunnelKind::Tcp => "tcp",
        TunnelKind::Http => "http",
        TunnelKind::Udp => "udp",
    };
    let mut map = serde_json::Map::new();
    map.insert("id".to_string(), text(&spec.id));
    map.insert("name".to_string(), text(&spec.name));
    map.insert("kind".to_string(), text(kind));
    map.insert("public_port".to_string(), Value::from(spec.public_port));
    map.insert("local_host".to_string(), text(&spec.local_host));
    map.insert("local_port".to_string(), Value::from(spec.local_port));
    map.insert("enabled".to_string(), Value::from(spec.enabled));
    map.insert("max_connections".to_string(), Value::from(spec.max_connections));
    Value::Object(map)
}

fn specs_value(specs: &[TunnelSpec]) -> Value {
    Value::Array(specs.iter().map(spec_value).collect())
}

fn settings_value(s: &AgentSettings) -> Value {
    let mut map = serde_json::Map::new();
    map.insert("device_name".to_string(), text(&s.device_name));
    map.insert("server_url".to_string(), text(&s.server_url));
    map.insert("data_channels".to_string(), Value::from(s.data_channels));
    map.insert("heartbeat_secs".to_string(), Value::from(s.heartbeat_secs));
    map.insert("pong_timeout_secs".to_string(), Value::from(s.pong_timeout_secs));
    map.insert("reconnect_min_secs".to_string(), Value::from(s.reconnect_min_secs));
    map.insert("reconnect_max_secs".to_string(), Value::from(s.reconnect_max_secs));
    map.insert("log_level".to_string(), text(&s.log_level));
    Value::Object(map)
}

fn serialize(message: &ControlMessage) -> Result<Vec<u8>, String> {
    let value = match message {
        ControlMessage::Register { version, token, device_name } => object(
            "register",
            vec![
                ("version", Value::from(*version)),
                ("token", text(token)),
                ("device_name", text(device_name)),
            ],
        ),
        ControlMessage::Registered { device_id, tunnels } => object(
            "registered",
            vec![("device_id", text(device_id)), ("tunnels", specs_value(tunnels))],
        ),
        ControlMessage::Heartbeat { version, latency_ms } => object(
            "heartbeat",
            vec![("version", Value::from(*version)), ("latency_ms", Value::from(*latency_ms))],
        ),
        ControlMessage::Enroll { code, device_name } => {
            object("enroll", vec![("code", text(code)), ("device_name", text(device_name))])
        }
        ControlMessage::Enrolled { token, device_id } => {
            object("enrolled", vec![("token", text(token)), ("device_id", text(device_id))])
        }
        ControlMessage::SyncTunnels { tunnels } => {
            object("sync_tunnels", vec![("tunnels", specs_value(tunnels))])
        }
        ControlMessage::SettingsSync { settings } => {
            object("settings_sync", vec![("settings", settings_value(settings))])
        }
        ControlMessage::TokenRotate { token } => {
            object("token_rotate", vec![("token", text(token))])
        }
        ControlMessage::StreamOpen { stream_id, tunnel_id, data_channel } => object(
            "stream_open",
            vec![
                ("stream_id", text(stream_id)),
                ("tunnel_id", text(tunnel_id)),
                ("data_channel", Value::from(*data_channel)),
            ],
        ),
        ControlMessage::StreamClose { stream_id, reason } => object(
            "stream_close",
            vec![("stream_id", text(stream_id)), ("reason", optional(reason))],
        ),
        ControlMessage::ProbeLocal { probe_id, tunnel_id } => object(
            "probe_local",
            vec![("probe_id", text(probe_id)), ("tunnel_id", text(tunnel_id))],
        ),
        ControlMessage::ProbeResult { probe_id, ok, message } => object(
            "probe_result",
            vec![
                ("probe_id", text(probe_id)),
                ("ok", Value::from(*ok)),
                ("message", optional(message)),
            ],
        ),
        ControlMessage::BandwidthConfig { mbps } => {
            object("bandwidth_config", vec![("mbps", Value::from(*mbps))])
        }
        ControlMessage::RestartAgent { restart_id, reason } => object(
            "restart_agent",
            vec![("restart_id", text(restart_id)), ("reason", optional(reason))],
        ),
        ControlMessage::RestartProgress { restart_id, progress, phase, message } => object(
            "restart_progress",
            vec![
                ("restart_id", text(restart_id)),
                ("progress", Value::from(*progress)),
                ("phase", text(phase)),
                ("message", optional(message)),
            ],
        ),
        ControlMessage::DataBind { token } => object("data_bind", vec![("token", text(token))]),
        ControlMessage::DataBound { channel_id } => {
            object("data_bound", vec![("channel_id", Value::from(*channel_id))])
        }
        ControlMessage::Error { code, message } => {
            object("error", vec![("code", text(code)), ("message", text(message))])
        }
    };
    serde_json::to_vec(&value).map_err(|e| e.to_string())
}

fn string_in(value: &Value, name: &str) -> Result<String, String> {
    match value.get(name).and_then(Value::as_str) {
        Some(inner) => Ok(inner.to_string()),
        None => Err(format!("missing field {name}")),
    }
}

fn optional_in(value: &Value, name: &str) -> Result<Option<String>, String> {
    match value.get(name) {
        None | Some(Value::Null) => Ok(None),
        Some(_) => string_in(value, name).map(Some),
    }
}

fn number_in(value: &Value, name: &str, max: u64) -> Result<u64, String> {
    match value.get(name).and_then(Value::as_u64) {
        Some(n) if n <= max => Ok(n),
        _ => Err(format!("invalid field {name}")),
    }
}

fn bool_in(value: &Value, name: &str) -> Result<bool, String> {
    match value.get(name).and_then(Value::as_bool) {
        Some(b) => Ok(b),
        None => Err(format!("missing field {name}")),
    }
}

fn spec_in(value: &Value) -> Result<TunnelSpec, String> {
    let kind = match string_in(value, "kind")?.as_str() {
        "tcp" => TunnelKind::Tcp,
        "http" => TunnelKind::Http,
        "udp" => TunnelKind::Udp,
        other => return Err(format!("unknown variant {other}")),
    };
    Ok(TunnelSpec {
        id: string_in(value, "id")?,
        name: string_in(value, "name")?,
        kind,
        public_port: number_in(value, "public_port", 65535)? as u16,
        local_host: string_in(value, "local_host")?,
        local_port: number_in(value, "local_port", 65535)? as u16,
        enabled: bool_in(value, "enabled")?,
        max_connections: number_in(value, "max_connections", 65535)? as u16,
    })
}

fn specs_in(value: &Value) -> Result<Vec<TunnelSpec>, String> {
    match value.get("tunnels").and_then(Value::as_array) {
        Some(items) => items.iter().map(spec_in).collect(),
        None => Err("missing field tunnels".to_string()),
    }
}

fn settings_in(value: &Value) -> Result<AgentSettings, String> {
    let Some(s) = value.get("settings") else {
        return Err("missing field settings".to_string());
    };
    Ok(AgentSettings {
        device_name: string_in(s, "device_name")?,
        server_url: string_in(s, "server_url")?,
        data_channels: number_in(s, "data_channels", 65535)? as u16,
        heartbeat_secs: number_in(s, "heartbeat_secs", u64::MAX)?,
        pong_timeout_secs: number_in(s, "pong_timeout_secs", u64::MAX)?,
        reconnect_min_secs: number_in(s, "reconnect_min_secs", u64::MAX)?,
        reconnect_max_secs: number_in(s, "reconnect_max_secs", u64::MAX)?,
        log_level: string_in(s, "log_level")?,
    })
}

fn parse(bytes: &[u8]) -> Result<ControlMessage, String> {
    let value: Value = serde_json::from_slice(bytes).map_err(|e| e.to_string())?;
    let v = &value;
    match string_in(v, "type")?.as_str() {
        "register" => Ok(ControlMessage::Register {
            version: number_in(v, "version", 65535)? as u16,
            token: string_in(v, "token")?,
            device_name: string_in(v, "device_name")?,
        }),
        "registered" => Ok(ControlMessage::Registered {
            device_id: string_in(v, "device_id")?,
            tunnels: specs_in(v)?,
        }),
        "heartbeat" => Ok(ControlMessage::Heartbeat {
            version: number_in(v, "version", 65535)? as u16,
            latency_ms: number_in(v, "latency_ms", u32::MAX as u64)? as u32,
        }),
        "enroll" => Ok(ControlMessage::Enroll {
            code: string_in(v, "code")?,
            device_name: string_in(v, "device_name")?,
        }),
        "enrolled" => Ok(ControlMessage::Enrolled {
            token: string_in(v, "token")?,
            device_id: string_in(v, "device_id")?,
        }),
        "sync_tunnels" => Ok(ControlMessage::SyncTunnels { tunnels: specs_in(v)? }),
        "settings_sync" => Ok(ControlMessage::SettingsSync { settings: settings_in(v)? }),
        "token_rotate" => Ok(ControlMessage::TokenRotate { token: string_in(v, "token")? }),
        "stream_open" => Ok(ControlMessage::StreamOpen {
            stream_id: string_in(v, "stream_id")?,
            tunnel_id: string_in(v, "tunnel_id")?,
            data_channel: number_in(v, "data_channel", 65535)? as u16,
        }),
        "stream_close" => Ok(ControlMessage::StreamClose {
            stream_id: string_in(v, "stream_id")?,
            reason: optional_in(v, "reason")?,
        }),
        "probe_local" => Ok(ControlMessage::ProbeLocal {
            probe_id: string_in(v, "probe_id")?,
            tunnel_id: string_in(v, "tunnel_id")?,
        }),
        "probe_result" => Ok(ControlMessage::ProbeResult {
            probe_id: string_in(v, "probe_id")?,
            ok: bool_in(v, "ok")?,
            message: optional_in(v, "message")?,
        }),
        "bandwidth_config" => {
            Ok(ControlMessage::BandwidthConfig { mbps: number_in(v, "mbps", u64::MAX)? })
        }
        "restart_agent" => Ok(ControlMessage::RestartAgent {
            restart_id: string_in(v, "restart_id")?,
            reason: optional_in(v, "reason")?,
        }),
        "restart_progress" => Ok(ControlMessage::RestartProgress {
            restart_id: string_in(v, "restart_id")?,
            progress: number_in(v, "progress", 255)? as u8,
            phase: string_in(v, "phase")?,
            message: optional_in(v, "message")?,
        }),
        "data_bind" => Ok(ControlMessage::DataBind { token: string_in(v, "token")? }),
        "data_bound" => {
            Ok(ControlMessage::DataBound { channel_id: number_in(v, "channel_id", 65535)? as u16 })
        }
        "error" => Ok(ControlMessage::Error {
            code: string_in(v, "code")?,
            message: string_in(v, "message")?,
        }),
        other => Err(format!("unknown variant {other}")),
    }
}

fn to_bytes(message: &ControlMessage) -> Result<Vec<u8>, ProtocolError> {
    encode(message, serialize)
}

fn from_bytes(bytes: &[u8]) -> Result<ControlMessage, ProtocolError> {
    decode(bytes, parse)
}

#[test]
fn tcp_chunk_size_fits_frame_cap() {
    assert!(
        TCP_CHUNK_SIZE + 16 <= MAX_FRAME_BYTES,
        "one 64KiB TCP chunk plus the 16-byte stream header must fit a frame"
    );
}

#[test]
fn round_trip_message() {
    let input = ControlMessage::Heartbeat { version: PROTOCOL_VERSION, latency_ms: 14 };
    assert_eq!(from_bytes(&to_bytes(&input).unwrap()).unwrap(), input);
}

#[test]
fn round_trip_restart_messages() {
    let request = ControlMessage::RestartAgent {
        restart_id: "b6f9d6c2-4f80-4f7a-9f5b-8e8f4d0f2c3a".into(),
        reason: Some("admin_request".into()),
    };
    assert_eq!(from_bytes(&to_bytes(&request).unwrap()).unwrap(), request);
    let progress = ControlMessage::RestartProgress {
        restart_id: "b6f9d6c2-4f80-4f7a-9f5b-8e8f4d0f2c3a".into(),
        progress: 30,
        phase: "stopping".into(),
        message: Some("agent is stopping".into()),
    };
    assert_eq!(from_bytes(&to_bytes(&progress).unwrap()).unwrap(), progress);
}

#[test]
fn rejects_wrong_version() {
    assert_eq!(
        from_bytes(br#"{"type":"heartbeat","version":1,"latency_ms":1}"#),
        Err(ProtocolError::UnsupportedVersion(1))
    );
}

#[test]
fn rejects_v3_heartbeat() {
    assert_eq!(
        from_bytes(br#"{"type":"heartbeat","version":3,"latency_ms":1}"#),
        Err(ProtocolError::UnsupportedVersion(3))
    );
}

#[test]
fn enroll_round_trip() {
    let input =
        ControlMessage::Enroll { code: "AB12CD34".into(), device_name: "DESKTOP-01".into() };
    assert_eq!(from_bytes(&to_bytes(&input).unwrap()).unwrap(), input);
}

#[test]
fn enrolled_round_trip() {
    let input = ControlMessage::Enrolled { token: "abc123".into(), device_id: "device-1".into() };
    assert_eq!(from_bytes(&to_bytes(&input).unwrap()).unwrap(), input);
}

#[test]
fn settings_sync_round_trip() {
    let input = ControlMessage::SettingsSync {
        settings: AgentSettings {
            device_name: "DESKTOP-01".into(),
            server_url: "ws://203.0.113.10:18080/control".into(),
            data_channels: 4,
            heartbeat_secs: 10,
            pong_timeout_secs: 25,
            reconnect_min_secs: 1,
            reconnect_max_secs: 10,
            log_level: "debug".into(),
        },
    };
    assert_eq!(from_bytes(&to_bytes(&input).unwrap()).unwrap(), input);
}

#[test]
fn token_rotate_round_trip() {
    let input = ControlMessage::TokenRotate { token: "new-token".into() };
    assert_eq!(from_bytes(&to_bytes(&input).unwrap()).unwrap(), input);
}

#[test]
fn udp_tunnel_spec_round_trip() {
    let spec = TunnelSpec {
        id: "tunnel-1".into(),
        name: "Bedrock server".into(),
        kind: TunnelKind::Udp,
        public_port: 19132,
        local_host: "127.0.0.1".into(),
        local_port: 19132,
        enabled: true,
        max_connections: 50,
    };
    let encoded = to_bytes(&ControlMessage::Registered {
        device_id: "device-1".into(),
        tunnels: vec![spec.clone()],
    })
    .unwrap();
    assert_eq!(
        from_bytes(&encoded).unwrap(),
        ControlMessage::Registered { device_id: "device-1".into(), tunnels: vec![spec] }
    );
}

#[test]
fn probe_messages_round_trip() {
    let input =
        ControlMessage::ProbeLocal { probe_id: "probe-1".into(), tunnel_id: "tunnel-1".into() };
    assert_eq!(from_bytes(&to_bytes(&input).unwrap()).unwrap(), input);
    let result = ControlMessage::ProbeResult {
        probe_id: "probe-1".into(),
        ok: true,
        message: Some("local tcp reachable".into()),
    };
    assert_eq!(from_bytes(&to_bytes(&result).unwrap()).unwrap(), result);
}

#[test]
fn stream_open_carries_data_channel() {
    let input = ControlMessage::StreamOpen {
        stream_id: "stream-1".into(),
        tunnel_id: "tunnel-1".into(),
        data_channel: 2,
    };
    assert_eq!(from_bytes(&to_bytes(&input).unwrap()).unwrap(), input);
    let text = String::from_utf8(to_bytes(&input).unwrap()).unwrap();
    assert!(text.contains("\"data_channel\":2"));
}

#[test]
fn data_bind_bound_round_trip() {
    let bind = ControlMessage::DataBind { token: "agent-token".into() };
    assert_eq!(from_bytes(&to_bytes(&bind).unwrap()).unwrap(), bind);
    let bound = ControlMessage::DataBound { channel_id: 1 };
    assert_eq!(from_bytes(&to_bytes(&bound).unwrap()).unwrap(), bound);
}

#[test]
fn bandwidth_config_round_trip() {
    let input = ControlMessage::BandwidthConfig { mbps: 3 };
    assert_eq!(from_bytes(&to_bytes(&input).unwrap()).unwrap(), input);
}

#[test]
fn oversized_messages_are_refused_in_both_directions() {
    let long = ControlMessage::Error { code: "x".into(), message: "y".repeat(MAX_FRAME_BYTES) };
    assert_eq!(to_bytes(&long), Err(ProtocolError::FrameTooLarge));
    let bytes = vec![b'{'; MAX_FRAME_BYTES + 1];
    assert_eq!(from_bytes(&bytes), Err(ProtocolError::FrameTooLarge));
    assert_eq!(frame_message(Ok(vec![7; MAX_FRAME_BYTES])), Ok(vec![7; MAX_FRAME_BYTES]));
}

#[test]
fn codec_failures_are_invalid_messages() {
    assert_eq!(
        frame_message(Err("broken".into())),
        Err(ProtocolError::InvalidMessage("broken".into()))
    );
    assert_eq!(
        accept_message(Err("broken".into())),
        Err(ProtocolError::InvalidMessage("broken".into()))
    );
    let old =
        ControlMessage::Register { version: 3, token: "t".into(), device_name: "d".into() };
    assert_eq!(accept_message(Ok(old)), Err(ProtocolError::UnsupportedVersion(3)));
    let other = ControlMessage::DataBound { channel_id: 9 };
    assert_eq!(accept_message(Ok(other.clone())), Ok(other));
}

#[test]
fn protocol_errors_have_texts() {
    assert_eq!(ProtocolError::FrameTooLarge.text(), "frame exceeds 1048576 bytes");
    assert_eq!(ProtocolError::UnsupportedVersion(3).text(), "unsupported protocol version 3");
    assert_eq!(
        ProtocolError::InvalidMessage("eof".into()).text(),
        "invalid control message: eof"
    );
}

#[test]
fn stream_frames_round_trip() {
    let id: u128 = 0x0102_0304_0506_0708_090a_0b0c_0d0e_0f10;
    let frame = encode_stream_data(id, b"payload").unwrap();
    assert_eq!(&frame[..16], &[1, 2, 3, 4, 5, 6, 7, 8, 9, 10, 11, 12, 13, 14, 15, 16]);
    assert_eq!(decode_stream_data(&frame), Ok((id, b"payload".as_slice())));
    let empty = encode_stream_data(u128::MAX, &[]).unwrap();
    assert_eq!(empty, vec![255; 16]);
    assert_eq!(decode_stream_data(&empty), Ok((u128::MAX, [].as_slice())));
    assert_ne!(encode_stream_data(1, b"a").unwrap(), encode_stream_data(2, b"a").unwrap());
}

#[test]
fn stream_frames_have_bounds() {
    let largest = vec![1; MAX_FRAME_BYTES - 16];
    let frame = encode_stream_data(5, &largest).unwrap();
    assert_eq!(frame.len(), MAX_FRAME_BYTES);
    assert_eq!(decode_stream_data(&frame).unwrap().1.len(), MAX_FRAME_BYTES - 16);
    let over = vec![1; MAX_FRAME_BYTES - 15];
    assert_eq!(encode_stream_data(5, &over), Err(ProtocolError::FrameTooLarge));
    assert_eq!(
        decode_stream_data(&[0; 15]),
        Err(ProtocolError::InvalidMessage("invalid stream frame".into()))
    );
    assert_eq!(
        decode_stream_data(&vec![0; MAX_FRAME_BYTES + 1]),
        Err(ProtocolError::InvalidMessage("invalid stream frame".into()))
    );
    assert!(encode_stream_data(5, &vec![0; TCP_CHUNK_SIZE]).is_ok());
}
