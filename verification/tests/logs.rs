use sysman::app::{Effect, LogLevelFilter, LogSourceFilter, UiState};
use sysman::collectors::logs::{collect_dmesg_lines, collect_journal_lines, collect_syslog_lines};
use sysman::collectors::provider::{CommandOutput, MockBehavior, MockProvider};
use sysman::logview::{
    count_error_lines, error_spike_of, is_error_line, logs_level_label, logs_matches_level,
    logs_source_label, push_error_count, LogPattern,
};

fn ok(stdout: &str) -> MockBehavior {
    MockBehavior::Success(CommandOutput::new(stdout.to_string(), String::new(), true))
}

#[test]
fn test_collect_journal_lines_mock() {
    let mut mock_provider = MockProvider::new(true);
    mock_provider.insert(
        "journalctl -n 10 --no-pager --output=short".to_string(),
        ok("line 1\nline 2\nline 3"),
    );
    let lines = collect_journal_lines(&mut mock_provider, 10);
    assert_eq!(lines.len(), 3);
    assert_eq!(lines[0], "line 1");
    assert_eq!(lines[1], "line 2");
    assert_eq!(lines[2], "line 3");
}

#[test]
fn journal_is_empty_off_linux() {
    let mut p = MockProvider::new(false);
    p.insert("journalctl -n 10 --no-pager --output=short".to_string(), ok("x"));
    assert!(collect_journal_lines(&mut p, 10).is_empty());
}

#[test]
fn syslog_falls_back_to_messages() {
    let mut p = MockProvider::new(true);
    p.insert("tail -n 5 /var/log/syslog".to_string(), ok(""));
    p.insert("tail -n 5 /var/log/messages".to_string(), ok("a\nb"));
    assert_eq!(collect_syslog_lines(&mut p, 5), vec!["a".to_string(), "b".to_string()]);
}

#[test]
fn dmesg_keeps_the_newest_lines() {
    let mut p = MockProvider::new(true);
    p.insert("dmesg --ctime --nopager --level=err,warn,info".to_string(), ok("1\n2\n3\n4"));
    assert_eq!(collect_dmesg_lines(&mut p, 2), vec!["3".to_string(), "4".to_string()]);
    assert_eq!(collect_dmesg_lines(&mut p, 9).len(), 4);
}

#[test]
fn recognizes_error_lines() {
    assert!(is_error_line("kernel: ERROR disk"));
    assert!(is_error_line("unit Failed to start"));
    assert!(is_error_line("x err y"));
    assert!(!is_error_line("all good"));
    assert!(!is_error_line("terrible"));
    assert!(logs_matches_level("Warning: hot", LogLevelFilter::Warn));
    assert!(logs_matches_level("INFO started", LogLevelFilter::Info));
    assert!(!logs_matches_level("INFO started", LogLevelFilter::Error));
    assert!(logs_matches_level("anything", LogLevelFilter::All));
    assert_eq!(count_error_lines(&vec!["panic".to_string(), "ok".to_string(), "fatal".to_string()]), 2);
    assert_eq!(logs_level_label(LogLevelFilter::Warn), "warn");
    assert_eq!(logs_source_label(LogSourceFilter::Dmesg), "dmesg");
}

#[test]
fn detects_error_spikes() {
    assert_eq!(error_spike_of(&vec![0, 0, 5]), None);
    assert_eq!(
        error_spike_of(&vec![1, 0, 2, 3]),
        Some("⚠ error spike: 5 errs (recent 2) vs 1 errs (prev 2)".to_string())
    );
    assert_eq!(error_spike_of(&vec![2, 2, 2, 2]), None);
    assert_eq!(error_spike_of(&vec![0, 0, 1, 1]), None);
    assert_eq!(
        error_spike_of(&vec![9, 0, 0, 1, 2]),
        Some("⚠ error spike: 3 errs (recent 2) vs 0 errs (prev 2)".to_string())
    );
}

#[test]
fn error_history_is_capped() {
    let mut h: Vec<u32> = Vec::new();
    for i in 0..70u32 {
        push_error_count(&mut h, i);
    }
    assert_eq!(h.len(), 60);
    assert_eq!(h[0], 10);
    assert_eq!(h[59], 69);
}

#[test]
fn spike_follows_log_refreshes() {
    let mut s = UiState::new();
    for _ in 0..2 {
        s.set_log_lines(vec!["ok".to_string()], Vec::new(), Vec::new());
    }
    assert_eq!(s.error_spike, None);
    for _ in 0..2 {
        s.set_log_lines(vec!["error a".to_string(), "error b".to_string()], vec!["fatal".to_string()], Vec::new());
    }
    assert_eq!(s.error_count_history, vec![0, 0, 3, 3]);
    assert_eq!(s.error_spike, Some("⚠ error spike: 6 errs (recent 2) vs 0 errs (prev 2)".to_string()));
    assert_eq!(s.scroll.logs, usize::MAX / 4);
}

#[test]
fn refreshes_logs_through_a_provider() {
    let mut p = MockProvider::new(true);
    p.insert("journalctl -n 200 --no-pager --output=short".to_string(), ok("j1\nerror j2"));
    p.insert("tail -n 200 /var/log/syslog".to_string(), ok("s1"));
    p.insert("dmesg --ctime --nopager --level=err,warn,info".to_string(), ok("k1"));
    let mut s = UiState::new();
    s.refresh_logs_view(&mut p);
    assert_eq!(s.logs_journal, vec!["j1".to_string(), "error j2".to_string()]);
    assert_eq!(s.logs_syslog, vec!["s1".to_string()]);
    assert_eq!(s.logs_dmesg, vec!["k1".to_string()]);
    assert_eq!(s.error_count_history, vec![1]);
}

fn logs_state() -> UiState {
    let mut s = UiState::new();
    s.set_log_lines(
        vec!["boot ok".to_string(), "disk error 1".to_string(), "net info".to_string()],
        vec!["disk error 2".to_string()],
        vec!["kernel warn".to_string(), "disk error 3".to_string()],
    );
    s.scroll.logs_autoscroll = false;
    s.scroll.logs = 0;
    s
}

#[test]
fn compiles_search_patterns() {
    assert!(LogPattern::compile("disk [0-9]").is_some());
    assert!(LogPattern::compile("(unclosed").is_none());
    let p = LogPattern::compile("^boot").unwrap();
    assert!(p.is_match("boot ok"));
    assert!(!p.is_match("reboot"));
}

#[test]
fn searches_forward_and_back_through_matches() {
    let mut s = logs_state();
    s.logs_query = " disk ".to_string();
    s.navigate_logs_match(true);
    assert_eq!(s.scroll.logs, 1);
    assert_eq!(s.status_line, "Log match 1/3 in all");
    s.navigate_logs_match(true);
    assert_eq!(s.scroll.logs, 3);
    assert_eq!(s.status_line, "Log match 2/3 in all");
    s.navigate_logs_match(true);
    assert_eq!(s.scroll.logs, 5);
    s.navigate_logs_match(true);
    assert_eq!(s.scroll.logs, 1);
    s.navigate_logs_match(false);
    assert_eq!(s.scroll.logs, 5);
    assert_eq!(s.status_line, "Log match 3/3 in all");
    assert!(!s.scroll.logs_autoscroll);
}

#[test]
fn search_reports_why_it_finds_nothing() {
    let mut s = logs_state();
    s.logs_query = "   ".to_string();
    s.navigate_logs_match(true);
    assert_eq!(s.status_line, "Log regex is empty");
    s.logs_query = "(".to_string();
    s.navigate_logs_match(true);
    assert_eq!(s.status_line, "Invalid log regex");
    s.logs_query = "zzz".to_string();
    s.navigate_logs_match(true);
    assert_eq!(s.status_line, "No regex matches found");
    let mut e = UiState::new();
    e.logs_query = "x".to_string();
    e.navigate_logs_match(true);
    assert_eq!(e.status_line, "No logs in current source/filter");
}

#[test]
fn search_respects_source_and_level_filters() {
    let mut s = logs_state();
    s.logs_source_filter = LogSourceFilter::Dmesg;
    assert_eq!(s.filtered_log_lines(), vec!["kernel warn".to_string(), "disk error 3".to_string()]);
    s.logs_level_filter = LogLevelFilter::Error;
    s.logs_source_filter = LogSourceFilter::All;
    assert_eq!(s.filtered_log_lines().len(), 3);
    s.logs_query = "disk".to_string();
    s.navigate_logs_match(true);
    assert_eq!(s.scroll.logs, 1);
    assert_eq!(s.status_line, "Log match 2/3 in all");
}

#[test]
fn refresh_effect_names_are_distinct() {
    let e = Effect::RefreshLogsView;
    assert!(matches!(e, Effect::RefreshLogsView));
}

fn lines(items: &[&str]) -> Vec<String> {
    items.iter().map(|s| s.to_string()).collect()
}

fn spike_state(newer: &[&str]) -> UiState {
    let mut s = UiState::new();
    s.logs_journal = lines(&["booting"; 6]);
    s.logs_syslog = lines(&["service started"; 4]);
    s.logs_dmesg = lines(newer);
    s
}

#[test]
fn spike_explanation_names_the_most_frequent_word() {
    let mut newer = vec!["failed: mount storage"; 6];
    newer.extend(["failed: storage", "failed: storage", "all good here", "steady"]);
    let s = spike_state(&newer);
    assert_eq!(
        s.log_error_spike_explanation(),
        Some("surge in errors containing 'storage'".to_string())
    );
}

#[test]
fn spike_explanation_needs_twenty_lines() {
    let mut s = spike_state(&["failed: mount storage"; 9]);
    assert_eq!(s.logs_journal.len() + s.logs_syslog.len() + s.logs_dmesg.len(), 19);
    assert_eq!(s.log_error_spike_explanation(), None);
    s.logs_dmesg.push("failed: mount storage".to_string());
    assert!(s.log_error_spike_explanation().is_some());
}

#[test]
fn spike_explanation_needs_six_recent_errors() {
    let mut newer = vec!["failed: mount storage"; 5];
    newer.extend(["quiet"; 5]);
    let s = spike_state(&newer);
    assert_eq!(s.log_error_spike_explanation(), None);
}

#[test]
fn spike_explanation_without_keywords_is_general() {
    let s = spike_state(&["fatal: oops 42"; 10]);
    assert_eq!(
        s.log_error_spike_explanation(),
        Some("unusually high error frequency".to_string())
    );
}

#[test]
fn spike_explanation_lowercases_unicode_words() {
    let mut newer = vec!["failed: ÉCHEC"; 6];
    newer.extend(["ok"; 4]);
    let s = spike_state(&newer);
    assert_eq!(
        s.log_error_spike_explanation(),
        Some("surge in errors containing 'échec'".to_string())
    );
}

#[test]
fn spike_explanation_counts_bytes_not_characters() {
    // "éété" has four characters but six bytes, so it is a keyword.
    let mut newer = vec!["crit éété"; 6];
    newer.extend(["ok"; 4]);
    let s = spike_state(&newer);
    assert_eq!(
        s.log_error_spike_explanation(),
        Some("surge in errors containing 'éété'".to_string())
    );
}
