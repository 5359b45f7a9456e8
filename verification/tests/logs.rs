use tunnel_control::log_view::{
    gui_log_line, install_env, load_config, push_entry, push_log, read_agent_log,
    read_config_value, read_gui_log, read_logs, rolls_gui_log, running_in, save_config,
    service_action, service_running, LogLine, ServiceAction, GUI_LOG_MAX,
};
use tunnel_control::logs::{is_expired_log, line_count, new_lines, sorted_log_files, tail_lines};

fn strings(list: &[&str]) -> Vec<String> {
    list.iter().map(|s| s.to_string()).collect()
}

fn entry(message: &str, epoch_ms: i64) -> LogLine {
    LogLine {
        timestamp: String::new(),
        level: String::new(),
        source: String::new(),
        message: message.to_string(),
        epoch_ms,
    }
}

#[test]
fn newest_log_files_come_first() {
    let files: Vec<(String, u64)> = [
        ("agent.log.2025-01-01", 10),
        ("console.log", 99),
        ("agent.log.2025-01-02", 20),
        ("agent.log", 20),
        ("xagent.log", 50),
    ]
    .iter()
    .map(|(n, t)| (n.to_string(), *t))
    .collect();
    let names: Vec<String> = sorted_log_files(&files).into_iter().map(|f| f.0).collect();
    assert_eq!(names, strings(&["agent.log", "agent.log.2025-01-02", "agent.log.2025-01-01"]));
}

#[test]
fn tails_read_in_order() {
    let contents = strings(&["n1\nn2\n", "m1\nm2\n", "o1\n", "gone\n"]);
    assert_eq!(tail_lines(&contents, 100), strings(&["o1", "m1", "m2", "n1", "n2"]));
    assert_eq!(tail_lines(&contents, 3), strings(&["m2", "n1", "n2"]));
    assert_eq!(tail_lines(&vec![], 3), Vec::<String>::new());
    assert_eq!(new_lines("a\nb\nc\n", 1), (strings(&["b", "c"]), 3));
    assert_eq!(new_lines("a\n", 3), (Vec::<String>::new(), 3));
    assert_eq!(line_count("a\nb"), 2);
}

#[test]
fn old_rotated_logs_expire() {
    let week: u128 = 7 * 24 * 3600 * 1_000_000_000;
    assert!(is_expired_log("agent.log.2025-01-01", week + 1));
    assert!(!is_expired_log("agent.log.2025-01-01", week));
    assert!(!is_expired_log("agent.log", week + 1));
}

#[test]
fn log_lines_are_read() {
    let mut entries: Vec<LogLine> = Vec::new();
    read_gui_log("1970-01-01T00:00:01Z info  a   b\nbroken\n2 warn\n", &mut entries);
    assert_eq!(entries.len(), 1);
    assert_eq!(entries[0].timestamp, "1970-01-01T00:00:01Z");
    assert_eq!(entries[0].level, "INFO");
    assert_eq!(entries[0].source, "GUI");
    assert_eq!(entries[0].message, "a b");
    assert_eq!(entries[0].epoch_ms, 1000);
    read_agent_log("when WARN target: it failed\ntoo short now\n", &mut entries);
    assert_eq!(entries.len(), 2);
    assert_eq!(entries[1].source, "agent");
    assert_eq!(entries[1].message, "it failed");
    assert_eq!(entries[1].epoch_ms, 0);
    push_log(&mut entries, "1970-01-01T00:00:00.250+00:00", "debug", "x", "m");
    assert_eq!(entries[2].epoch_ms, 250);
    push_log(&mut entries, "t", "debug", "x", "");
    assert_eq!(entries.len(), 3);
    push_entry(&mut entries, "t", "debug", "x", "m", Some(7));
    assert_eq!(entries[3].epoch_ms, 7);
}

#[test]
fn newest_entries_come_first() {
    let entries = vec![entry("a", 5), entry("b", 9), entry("c", 5), entry("d", 7)];
    let order = |limit| {
        let shown: Vec<String> =
            read_logs(&entries, limit).into_iter().map(|e| e.message).collect();
        shown.concat()
    };
    assert_eq!(order(None), "bdac");
    assert_eq!(order(Some(2)), "bd");
    assert_eq!(order(Some(0)), "b");
    let many: Vec<LogLine> = (0..600).map(|n| entry("x", n)).collect();
    assert_eq!(read_logs(&many, Some(9999)).len(), 500);
    assert_eq!(read_logs(&many, None).len(), 200);
    assert_eq!(read_logs(&many, None)[0].epoch_ms, 599);
}

#[test]
fn connection_settings_are_edited() {
    let content = "TUNNEL_SERVER_URLX=no\nTUNNEL_SERVER_URL= ws://a \r\nTUNNEL_TOKEN=t\n";
    assert_eq!(read_config_value(content, "TUNNEL_SERVER_URL").as_deref(), Some("ws://a"));
    assert_eq!(read_config_value(content, "OTHER"), None);
    assert_eq!(load_config(content), ("ws://a".to_string(), true));
    assert_eq!(load_config(""), (String::new(), false));
    let saved = save_config(content, " ws://b ", "  ");
    assert_eq!(saved, "TUNNEL_SERVER_URL=ws://b\nTUNNEL_TOKEN=t\n");
    let saved = save_config(content, "ws://b", " new ");
    assert_eq!(saved, "TUNNEL_SERVER_URL=ws://b\nTUNNEL_TOKEN=new\n");
    assert_eq!(load_config(&saved), ("ws://b".to_string(), true));
    assert_eq!(save_config("", "ws://b", ""), "TUNNEL_SERVER_URL=ws://b\nTUNNEL_TOKEN=\n");
    assert_eq!(install_env("ws://c", None), "TUNNEL_SERVER_URL=ws://c\n");
    assert_eq!(install_env("ws://c", Some("t")), "TUNNEL_SERVER_URL=ws://c\nTUNNEL_TOKEN=t\n");
}

#[test]
fn console_log_and_service() {
    assert_eq!(gui_log_line("now", "info", "started"), "now INFO started\n");
    assert!(!rolls_gui_log(GUI_LOG_MAX));
    assert!(rolls_gui_log(GUI_LOG_MAX + 1));
    assert!(service_running(b"        STATE : 4  RUNNING\r\n"));
    assert!(!service_running(b"        STATE : 1  STOPPED\r\n"));
    assert!(running_in("running"));
    assert!(!running_in("RUNNING"));
    assert_eq!(service_action("start"), Some(ServiceAction::Start));
    assert_eq!(service_action("stop"), Some(ServiceAction::Stop));
    assert_eq!(service_action("restart"), None);
}
