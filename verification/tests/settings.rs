use tunnel_control::settings::{
    agent_default_rows, device_override_row, effective_settings, is_log_level, load_agent_defaults,
    load_device_overrides, AgentDefaults, DeviceOverrides,
};

#[test]
fn agent_defaults_validation_rejects_out_of_range_values() {
    let ok = AgentDefaults { data_channels: 4, ..AgentDefaults::default() };
    assert!(ok.validate(16).is_ok());
    let too_many = AgentDefaults { data_channels: 9, ..AgentDefaults::default() };
    assert!(too_many.validate(16).is_err());
    let above_cap = AgentDefaults { data_channels: 6, ..AgentDefaults::default() };
    assert!(above_cap.validate(4).is_err());
    let inverted_reconnect = AgentDefaults {
        reconnect_min_secs: 30,
        reconnect_max_secs: 10,
        ..AgentDefaults::default()
    };
    assert!(inverted_reconnect.validate(16).is_err());
    let bad_level = AgentDefaults { log_level: "verbose".into(), ..AgentDefaults::default() };
    assert!(bad_level.validate(16).is_err());
}

#[test]
fn device_overrides_validation_checks_present_fields_only() {
    let overrides = DeviceOverrides { data_channels: Some(3), ..DeviceOverrides::default() };
    assert!(overrides.validate(16).is_ok());
    let bad = DeviceOverrides { pong_timeout_secs: Some(1), ..DeviceOverrides::default() };
    assert!(bad.validate(16).is_err());
}

#[test]
fn absent_overrides_are_never_wrong() {
    let none = DeviceOverrides::default();
    assert_eq!(none.validate(1), Ok(()));
    assert_eq!(none.validate(0), Ok(()));
    let both = DeviceOverrides {
        reconnect_min_secs: Some(30),
        reconnect_max_secs: Some(60),
        ..none.clone()
    };
    assert_eq!(both.validate(16), Ok(()));
    let low = DeviceOverrides { reconnect_min_secs: Some(30), ..none.clone() };
    assert_eq!(low.validate(16), Ok(()));
    let one = DeviceOverrides { data_channels: Some(1), ..none.clone() };
    assert_eq!(one.validate(1), Ok(()));
    let full = DeviceOverrides {
        server_url: Some(String::new()),
        data_channels: Some(8),
        heartbeat_secs: Some(60),
        pong_timeout_secs: Some(5),
        reconnect_min_secs: Some(7),
        reconnect_max_secs: Some(7),
        log_level: Some("trace".into()),
    };
    assert_eq!(full.validate(8), Ok(()));
    let inverted = effective_settings(&AgentDefaults::default(), &low, "pc".into());
    assert_eq!((inverted.reconnect_min_secs, inverted.reconnect_max_secs), (30, 10));
}

#[test]
fn each_override_has_its_error() {
    let none = DeviceOverrides::default();
    let text = |o: DeviceOverrides| o.validate(4).unwrap_err();
    assert_eq!(
        text(DeviceOverrides { data_channels: Some(9), ..none.clone() }),
        "data_channels must be between 1 and 8"
    );
    assert_eq!(
        text(DeviceOverrides { data_channels: Some(5), heartbeat_secs: Some(2), ..none.clone() }),
        "data_channels must not exceed the server cap 4"
    );
    assert_eq!(
        text(DeviceOverrides { heartbeat_secs: Some(61), ..none.clone() }),
        "heartbeat_secs must be between 3 and 60"
    );
    assert_eq!(
        text(DeviceOverrides { pong_timeout_secs: Some(4), ..none.clone() }),
        "pong_timeout_secs must be between 5 and 300"
    );
    assert_eq!(
        text(DeviceOverrides { reconnect_min_secs: Some(0), ..none.clone() }),
        "reconnect_min_secs must be between 1 and 60"
    );
    assert_eq!(
        text(DeviceOverrides { reconnect_max_secs: Some(301), ..none.clone() }),
        "reconnect_max_secs must be between 1 and 300"
    );
    assert_eq!(
        text(DeviceOverrides {
            reconnect_min_secs: Some(9),
            reconnect_max_secs: Some(8),
            ..none.clone()
        }),
        "reconnect_max_secs must be >= reconnect_min_secs"
    );
    assert_eq!(
        text(DeviceOverrides { log_level: Some("loud".into()), ..none.clone() }),
        "log_level must be one of error/warn/info/debug/trace"
    );
    assert_eq!(
        text(DeviceOverrides { server_url: Some("http://x".into()), ..none.clone() }),
        "server_url must start with ws:// or wss://"
    );
}

#[test]
fn each_setting_has_its_error() {
    let base = AgentDefaults::default();
    let text = |d: AgentDefaults| d.validate(4).unwrap_err();
    assert_eq!(
        text(AgentDefaults { data_channels: 0, ..base.clone() }),
        "data_channels must be between 1 and 8"
    );
    assert_eq!(
        text(AgentDefaults { data_channels: 5, ..base.clone() }),
        "data_channels must not exceed the server cap 4"
    );
    assert_eq!(
        text(AgentDefaults { heartbeat_secs: 2, ..base.clone() }),
        "heartbeat_secs must be between 3 and 60"
    );
    assert_eq!(
        text(AgentDefaults { pong_timeout_secs: 301, ..base.clone() }),
        "pong_timeout_secs must be between 5 and 300"
    );
    assert_eq!(
        text(AgentDefaults { reconnect_min_secs: 61, ..base.clone() }),
        "reconnect_min_secs must be between 1 and 60"
    );
    assert_eq!(
        text(AgentDefaults { reconnect_max_secs: 0, ..base.clone() }),
        "reconnect_max_secs must be between 1 and 300"
    );
    assert_eq!(
        text(AgentDefaults { reconnect_min_secs: 20, ..base.clone() }),
        "reconnect_max_secs must be >= reconnect_min_secs"
    );
    assert_eq!(
        text(AgentDefaults { log_level: "loud".into(), ..base.clone() }),
        "log_level must be one of error/warn/info/debug/trace"
    );
    assert_eq!(
        text(AgentDefaults { server_url: "http://x".into(), ..base.clone() }),
        "server_url must start with ws:// or wss://"
    );
    assert!(is_log_level("trace"));
    assert!(!is_log_level("TRACE"));
}

#[test]
fn stored_defaults_are_read_back() {
    let values = AgentDefaults {
        server_url: "wss://x".into(),
        data_channels: 3,
        heartbeat_secs: 7,
        pong_timeout_secs: 30,
        reconnect_min_secs: 2,
        reconnect_max_secs: 20,
        log_level: "debug".into(),
    };
    assert_eq!(load_agent_defaults(&agent_default_rows(&values)), values);
    assert_eq!(load_agent_defaults(&vec![]), AgentDefaults::default());
    let rows = vec![
        ("agent.data_channels".to_string(), "9".to_string()),
        ("agent.heartbeat_secs".to_string(), "x".to_string()),
        ("agent.log_level".to_string(), "loud".to_string()),
        ("agent.pong_timeout_secs".to_string(), "60".to_string()),
    ];
    let loaded = load_agent_defaults(&rows);
    assert_eq!(loaded.data_channels, 2);
    assert_eq!(loaded.heartbeat_secs, 10);
    assert_eq!(loaded.log_level, "info");
    assert_eq!(loaded.pong_timeout_secs, 60);
}

#[test]
fn overrides_layer_on_defaults() {
    let defaults = AgentDefaults::default();
    let none = DeviceOverrides::default();
    let merged = effective_settings(&defaults, &none, "pc".into());
    assert_eq!(merged, defaults.to_agent_settings("pc".into()));
    let some = DeviceOverrides {
        heartbeat_secs: Some(5),
        log_level: Some("warn".into()),
        ..DeviceOverrides::default()
    };
    let merged = effective_settings(&defaults, &some, "pc".into());
    assert_eq!(merged.heartbeat_secs, 5);
    assert_eq!(merged.log_level, "warn");
    assert_eq!(merged.data_channels, 2);
    assert_eq!(load_device_overrides(Some(device_override_row(some.clone()))), some);
    assert_eq!(load_device_overrides(None), DeviceOverrides::default());
}
