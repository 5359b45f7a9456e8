use tunnel_control::agent_config::{data_server_from, data_server_url, pick_num, AgentConfig, AgentEnv};
use tunnel_control::backoff::{data_channel_backoff, data_channel_delay, jitter, reconnect_delay};
use tunnel_control::console::{
    agent_pipe_name, cli_mode, first_line, ipc_request_state, ipc_response_state,
    is_snapshot_request, needs_elevation, parse_command, parse_pid_file, parse_server_choice,
    ps_stdout_contains_bytes, quote_win_arg, quoted_parameters, start_verdict, text_matches,
    CliMode, ConsoleCommand, PipeRead, ServerChoice, StartVerdict,
};
use tunnel_control::display::{
    format_bytes, format_unix_time, settings_report, status_report, traffic_report, unix_time_text,
};
use tunnel_control::key_values::{parse_key_value, save_key_values, KeyValues};
use tunnel_control::protocol::AgentSettings;
use tunnel_control::settings::validate_server_url;
use tunnel_control::traffic::TrafficStats;

fn values(pairs: &[(&str, &str)]) -> KeyValues {
    let mut out = KeyValues::new();
    for (key, value) in pairs {
        out.set(key.to_string(), value.to_string());
    }
    out
}

fn updates(pairs: &[(&str, &str)]) -> Vec<(String, String)> {
    pairs.iter().map(|(k, v)| (k.to_string(), v.to_string())).collect()
}

fn strings(list: &[&str]) -> Vec<String> {
    list.iter().map(|s| s.to_string()).collect()
}

fn no_env() -> AgentEnv {
    AgentEnv { server_url: None, token: None, computer_name: None, log_level: None }
}

#[test]
fn ps_output_matching_strips_utf16le_nuls() {
    let utf16le = b"t\0u\0n\0n\0e\0l\0-\0a\0g\0e\0n\0t\0\r\0\n\0";
    assert!(ps_stdout_contains_bytes(utf16le, "tunnel-agent"));
    assert!(ps_stdout_contains_bytes(b"True\r\n", "True"));
    assert!(!ps_stdout_contains_bytes(b"", "tunnel-agent"));
}

#[test]
fn broken_output_still_matches() {
    assert!(ps_stdout_contains_bytes(b"\xff\xfet\0r\0u\0e\0", "true"));
    assert!(text_matches("a\0b", "ab"));
    assert!(!text_matches("ab", "ba"));
}

#[test]
fn reconnect_delay_grows_and_stays_bounded() {
    let min = 1;
    let max = 10;
    let whole: u64 = 1_000_000_000;
    assert_eq!(reconnect_delay(0, min, max, whole), 1_000_000_000);
    assert_eq!(reconnect_delay(4, min, max, whole), 10_000_000_000);
    let base = reconnect_delay(2, min, max, whole);
    let low = reconnect_delay(2, min, max, 700_000_000);
    let high = reconnect_delay(2, min, max, 1_300_000_000);
    assert!(low < base && base < high);
    let extreme = reconnect_delay(10, min, max, 1_300_000_000);
    assert!(extreme as f64 / 1e9 <= max as f64 * 1.3 + 1e-9);
}

#[test]
fn data_channel_backoff_grows_and_stays_bounded() {
    for _ in 0..50 {
        let first = data_channel_backoff(0) as f64 / 1e9;
        let second = data_channel_backoff(1) as f64 / 1e9;
        assert!((0.7 - 1e-9..=1.3 + 1e-9).contains(&first), "first backoff out of jitter range");
        assert!((1.4 - 1e-9..=2.6 + 1e-9).contains(&second), "second backoff out of jitter range");
        let capped = data_channel_backoff(20) as f64 / 1e9;
        assert!(capped <= 60.0 * 1.3 + 1e-9, "backoff must stay bounded");
    }
}

#[test]
fn delays_double_up_to_the_maximum() {
    for (attempt, secs) in [(0u32, 1u128), (1, 2), (2, 4), (3, 8), (4, 16), (5, 32), (6, 60), (99, 60)] {
        assert_eq!(data_channel_delay(attempt, 1_000_000_000), secs * 1_000_000_000);
    }
    assert_eq!(reconnect_delay(0, 0, 10, 1_000_000_000), 100_000_000);
    let drawn: Vec<u64> = (0..20).map(|_| jitter()).collect();
    assert!(drawn.iter().all(|j| (700_000_000..=1_300_000_000).contains(j)));
    assert!(drawn.iter().any(|j| *j != drawn[0]));
}

#[test]
fn pick_num_prefers_first_valid_source() {
    let credentials = values(&[("DATA_CHANNELS", "6")]);
    let file = values(&[("DATA_CHANNELS", "3")]);
    assert_eq!(pick_num(&["DATA_CHANNELS"], &[&credentials, &file], 2, 1, 8), 6);
    let bad = values(&[("DATA_CHANNELS", "99")]);
    assert_eq!(pick_num(&["DATA_CHANNELS"], &[&bad, &file], 2, 1, 8), 3);
    assert_eq!(pick_num(&["MISSING"], &[&bad, &file], 2, 1, 8), 2);
}

#[test]
fn credentials_round_trip_clears_empty_keys() {
    let content =
        save_key_values("", updates(&[("TOKEN", "abc"), ("ENROLL_CODE", "XYZ12345")]));
    assert_eq!(parse_key_value(&content).get("TOKEN").as_deref(), Some("abc"));
    let content = save_key_values(&content, updates(&[("ENROLL_CODE", "")]));
    let after = parse_key_value(&content);
    assert!(after.get("ENROLL_CODE").is_none());
    assert_eq!(after.get("TOKEN").as_deref(), Some("abc"));
}

#[test]
fn key_values_are_trimmed_lines() {
    let parsed = parse_key_value("A = 1\r\nno value\nB=x=y\nA=2\n=empty key\n");
    assert_eq!(parsed.get("A").as_deref(), Some("2"));
    assert_eq!(parsed.get("B").as_deref(), Some("x=y"));
    assert_eq!(parsed.get("no value"), None);
    assert_eq!(parsed.get("").as_deref(), Some("empty key"));
    let mut map = values(&[("K", "v")]);
    assert_eq!(map.render(), "K=v\n");
    map.merge(updates(&[("K", ""), ("L", "w")]));
    assert_eq!(map.get("K"), None);
    assert_eq!(map.get("L").as_deref(), Some("w"));
    map.remove("L");
    assert_eq!(map.render(), "");
}

#[test]
fn server_url_validation_accepts_ws_and_wss_only() {
    assert!(validate_server_url("ws://123.207.8.77:18080/control"));
    assert!(validate_server_url("wss://tunnel.example.com/control"));
    assert!(!validate_server_url("http://example.com"));
    assert!(!validate_server_url(""));
    assert!(!validate_server_url("tcp://example.com"));
}

#[test]
fn pid_file_parsing_accepts_digits_only() {
    assert_eq!(parse_pid_file("12345\n"), Some(12345));
    assert_eq!(parse_pid_file(" 42 "), Some(42));
    assert_eq!(parse_pid_file(""), None);
    assert_eq!(parse_pid_file("abc"), None);
    assert_eq!(parse_pid_file("12x"), None);
    assert_eq!(parse_pid_file("+12"), None);
    assert_eq!(parse_pid_file("4294967296"), None);
}

#[test]
fn win_arg_quoting_matches_shell_parsing() {
    assert_eq!(quote_win_arg("abc"), "abc");
    assert_eq!(quote_win_arg(""), "\"\"");
    assert_eq!(quote_win_arg("a b"), "\"a b\"");
    assert_eq!(quote_win_arg("a\"b"), "\"a\\\"b\"");
    assert_eq!(quote_win_arg("--server"), "--server");
}

#[test]
fn backslashes_before_quotes_are_doubled() {
    assert_eq!(quote_win_arg("C:\\dir\\"), "C:\\dir\\");
    assert_eq!(quote_win_arg("C:\\my dir\\"), "\"C:\\my dir\\\\\"");
    assert_eq!(quote_win_arg("a\\\"b"), "\"a\\\\\\\"b\"");
    assert_eq!(quote_win_arg("设备 一"), "\"设备 一\"");
    assert_eq!(quoted_parameters(&strings(&["--server", "a b"])), "--server \"a b\"");
}

#[test]
fn format_bytes_uses_adaptive_units() {
    assert_eq!(format_bytes(0), "0 B");
    assert_eq!(format_bytes(1023), "1023 B");
    assert_eq!(format_bytes(1024), "1 KB");
    assert_eq!(format_bytes(1536), "1.5 KB");
    assert_eq!(format_bytes(1_048_576), "1 MB");
    assert_eq!(format_bytes(1_073_741_824), "1 GB");
    assert_eq!(format_bytes(1_099_511_627_776), "1 TB");
}

#[test]
fn bytes_are_rounded_as_binary_fractions_are() {
    for bytes in [
        1025u64,
        1075,
        1076,
        1126,
        1_048_575,
        1_048_524,
        1_572_864,
        123_456_789,
        9_007_199_254_740_993,
        u64::MAX,
    ] {
        let mut value = bytes as f64;
        let mut unit = "B";
        for next in ["KB", "MB", "GB", "TB"] {
            if value < 1024.0 {
                break;
            }
            value /= 1024.0;
            unit = next;
        }
        let text = format!("{value:.1}");
        let expected = format!("{} {unit}", text.trim_end_matches(".0"));
        assert_eq!(format_bytes(bytes), expected);
    }
}

#[test]
fn unix_time_formats_epoch() {
    assert!(format_unix_time(0).starts_with("1970-01-01"));
}

#[test]
fn times_are_shown_on_a_clock() {
    for secs in [0_u64, 951_782_400, 1_752_000_000, 4_102_444_799] {
        let text = format_unix_time(secs);
        let shown = chrono::NaiveDateTime::parse_from_str(&text, "%Y-%m-%d %H:%M:%S").unwrap();
        let offset = shown.and_utc().timestamp() - secs as i64;
        assert!(-86_400 < offset && offset < 86_400, "{secs} is shown as {text}");
    }
    assert!(format_unix_time(u64::MAX - 86_400 * 365).starts_with("196"));
}

#[test]
fn times_out_of_range_are_numbers() {
    assert_eq!(format_unix_time(8_210_266_876_800), "8210266876800 (Unix)");
    assert_eq!(unix_time_text(5, None), "5 (Unix)");
    assert_eq!(unix_time_text(5, Some("now".into())), "now");
}

#[test]
fn commands_are_read() {
    assert_eq!(parse_command("start"), ConsoleCommand::Start);
    assert_eq!(parse_command("stop"), ConsoleCommand::Stop);
    assert_eq!(parse_command("restart"), ConsoleCommand::Restart);
    assert_eq!(parse_command("reset"), ConsoleCommand::Reset);
    assert_eq!(parse_command("status"), ConsoleCommand::Status);
    assert_eq!(parse_command("settings"), ConsoleCommand::Settings);
    assert_eq!(parse_command("traffic"), ConsoleCommand::Traffic);
    assert_eq!(parse_command("logs"), ConsoleCommand::Logs);
    assert_eq!(parse_command("exit"), ConsoleCommand::Exit);
    assert_eq!(parse_command("help"), ConsoleCommand::Help);
    assert_eq!(parse_command(""), ConsoleCommand::Blank);
    assert_eq!(parse_command("fly"), ConsoleCommand::Unknown);
    assert_eq!(parse_server_choice("1"), ServerChoice::Official);
    assert_eq!(parse_server_choice("2"), ServerChoice::Custom);
    assert_eq!(parse_server_choice("3"), ServerChoice::Neither);
}

#[test]
fn arguments_choose_a_mode() {
    assert_eq!(cli_mode(&strings(&["agent", "-V"])), CliMode::Version);
    assert_eq!(cli_mode(&strings(&["agent", "--service"])), CliMode::Service);
    assert_eq!(cli_mode(&strings(&["agent", "--uninstall"])), CliMode::Uninstall);
    assert_eq!(
        cli_mode(&strings(&["agent", "--install", "--server", "ws://x"])),
        CliMode::Install { server: Some("ws://x".into()) }
    );
    assert_eq!(
        cli_mode(&strings(&["agent", "--install", "--server"])),
        CliMode::Install { server: None }
    );
    assert_eq!(cli_mode(&strings(&["agent", "reset"])), CliMode::Reset);
    assert_eq!(
        cli_mode(&strings(&["agent", "logs", "-f", "-n", "5"])),
        CliMode::Logs { follow: true, lines: 5 }
    );
    assert_eq!(
        cli_mode(&strings(&["agent", "logs", "-n", "0"])),
        CliMode::Logs { follow: false, lines: 1 }
    );
    assert_eq!(
        cli_mode(&strings(&["agent", "logs", "-n", "9999"])),
        CliMode::Logs { follow: false, lines: 2000 }
    );
    assert_eq!(
        cli_mode(&strings(&["agent", "logs", "-n"])),
        CliMode::Logs { follow: false, lines: 100 }
    );
    assert_eq!(cli_mode(&strings(&["agent", "settings"])), CliMode::Settings);
    assert_eq!(cli_mode(&strings(&["agent", "traffic"])), CliMode::Traffic);
    assert_eq!(cli_mode(&strings(&["agent", "--agent"])), CliMode::Agent);
    assert_eq!(cli_mode(&strings(&["agent"])), CliMode::Console);
    assert!(needs_elevation(&strings(&["agent"]), false));
    assert!(!needs_elevation(&strings(&["agent"]), true));
    assert!(!needs_elevation(&strings(&["agent", "logs"]), false));
    assert!(!needs_elevation(&strings(&["agent", "--agent"]), false));
}

#[test]
fn one_agent_runs_at_a_time() {
    assert_eq!(start_verdict(Some(7), true, true), StartVerdict::Running(7));
    assert_eq!(start_verdict(Some(7), false, true), StartVerdict::ServiceRunning);
    assert_eq!(start_verdict(None, false, true), StartVerdict::ServiceRunning);
    assert_eq!(start_verdict(Some(7), false, false), StartVerdict::Go);
}

#[test]
fn pipes_carry_lines() {
    assert_eq!(agent_pipe_name(42), "\\\\.\\pipe\\TunnelControl-agent-42");
    assert_eq!(ipc_request_state(b"{\"cmd\""), PipeRead::More);
    assert_eq!(ipc_request_state(b"{}\nrest"), PipeRead::Complete);
    assert_eq!(ipc_request_state(&vec![b'x'; 4097]), PipeRead::TooLong);
    assert_eq!(ipc_response_state(&vec![b'x'; 4097]), PipeRead::More);
    assert_eq!(first_line(b"ab\ncd"), b"ab");
    assert_eq!(first_line(b"ab"), b"ab");
    assert!(is_snapshot_request("snapshot"));
    assert!(!is_snapshot_request("stop"));
}

#[test]
fn data_address_keeps_the_server() {
    assert_eq!(data_server_url("ws://host:18080/control"), "ws://host:18080/data");
    assert_eq!(data_server_url("wss://host/control?x=1"), "wss://host/data?x=1");
    assert_eq!(data_server_url("not a url//"), "not a url/data");
    assert_eq!(data_server_from("host///", None), "host/data");
    assert_eq!(data_server_from("host", Some("ws://other/data".into())), "ws://other/data");
}

#[test]
fn parameters_come_from_the_first_source() {
    let none = KeyValues::new();
    let config = AgentConfig::resolve(no_env(), &none, &none, &none);
    assert_eq!(config.server, "ws://127.0.0.1:18080/control");
    assert_eq!(config.data_server, "ws://127.0.0.1:18080/data");
    assert_eq!(config.token, "");
    assert_eq!(config.name, "Windows agent");
    assert_eq!(
        (config.data_channels, config.heartbeat_secs, config.pong_timeout_secs),
        (2, 10, 25)
    );
    assert_eq!((config.reconnect_min_secs, config.reconnect_max_secs), (1, 10));
    assert_eq!(config.log_level, "info");
    let credentials = values(&[
        ("SERVER_URL", "ws://credentials/control"),
        ("TOKEN", "stored"),
        ("RECONNECT_MIN_SECS", "30"),
        ("LOG_LEVEL", "loud"),
    ]);
    let file = values(&[
        ("TUNNEL_SERVER_URL", "ws://file/control"),
        ("AGENT_HEARTBEAT_SECS", "5"),
        ("DATA_CHANNELS", "9"),
    ]);
    let env = AgentEnv {
        server_url: Some("  ".into()),
        token: Some("given".into()),
        computer_name: Some("PC".into()),
        log_level: Some("debug".into()),
    };
    let variables = values(&[
        ("AGENT_HEARTBEAT_SECS", "6"),
        ("AGENT_PONG_TIMEOUT_SECS", "15"),
    ]);
    let config = AgentConfig::resolve(env, &credentials, &file, &variables);
    assert_eq!(config.server, "ws://credentials/control");
    assert_eq!(config.token, "given");
    assert_eq!(config.name, "PC");
    assert_eq!(config.heartbeat_secs, 5);
    assert_eq!(config.pong_timeout_secs, 15);
    assert_eq!(config.data_channels, 2);
    assert_eq!((config.reconnect_min_secs, config.reconnect_max_secs), (30, 30));
    assert_eq!(config.log_level, "info");
    assert_eq!(config.to_agent_settings().device_name, "PC");
}

#[test]
fn variables_are_a_fallback() {
    let none = KeyValues::new();
    let file = values(&[("AGENT_HEARTBEAT_SECS", "20"), ("AGENT_RECONNECT_MIN_SECS", "4")]);
    let variables = values(&[
        ("HEARTBEAT_SECS", "5"),
        ("AGENT_HEARTBEAT_SECS", "6"),
        ("PONG_TIMEOUT_SECS", "15"),
        ("RECONNECT_MIN_SECS", "2"),
        ("AGENT_RECONNECT_MAX_SECS", "40"),
        ("DATA_CHANNELS", "3"),
    ]);
    let config = AgentConfig::resolve(no_env(), &none, &file, &variables);
    assert_eq!(config.heartbeat_secs, 20);
    assert_eq!(config.pong_timeout_secs, 25);
    assert_eq!((config.reconnect_min_secs, config.reconnect_max_secs), (4, 40));
    assert_eq!(config.data_channels, 3);
    let config = AgentConfig::resolve(no_env(), &none, &none, &variables);
    assert_eq!(config.heartbeat_secs, 6);
    assert_eq!(config.reconnect_min_secs, 1);
}

#[test]
fn reports_show_what_is_known() {
    let settings = AgentSettings {
        device_name: "pc".into(),
        server_url: "ws://x".into(),
        data_channels: 2,
        heartbeat_secs: 10,
        pong_timeout_secs: 25,
        reconnect_min_secs: 1,
        reconnect_max_secs: 10,
        log_level: "info".into(),
    };
    let lines = settings_report(&settings, None);
    assert_eq!(lines[0], "尚未收到服务器下发设置(当前为本地默认)");
    assert_eq!(lines[4], "  心跳间隔    : 10 秒");
    assert_eq!(lines.len(), 9);
    assert_eq!(settings_report(&settings, Some("T".into()))[0], "服务器下发设置(同步时间 T)");
    let mut traffic = TrafficStats::new();
    assert_eq!(
        traffic_report(&traffic.snapshot(settings.clone(), None), "T")[1],
        "  尚无数据通道流量统计。"
    );
    traffic.channel_bound(1);
    traffic.count_up(1, 1024);
    let lines = traffic_report(&traffic.snapshot(settings, None), "T");
    assert_eq!(lines[0], "流量统计(截至 T)");
    assert_eq!(lines[1], "  通道 1 : 上行 1 KB / 下行 0 B / 合计 1 KB (在线)");
    assert_eq!(lines[2], "  合计   : 上行 1 KB / 下行 0 B / 总计 1 KB");
    let lines = status_report(Some(7), None, false, true);
    assert_eq!(
        lines,
        strings(&[
            "Agent process: RUNNING (PID 7)",
            "Server       : not configured (first start will ask)",
            "Credentials  : pending enrollment",
            "Service      : running (TunnelAgent)",
        ])
    );
    let lines = status_report(None, Some("ws://x".into()), true, false);
    assert_eq!(lines[0], "Agent process: stopped");
    assert_eq!(lines[1], "Server       : ws://x");
}
