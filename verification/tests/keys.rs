use sysman::app::{
    ConnectionStateFilter, Effect, LogLevelFilter, ProcessViewMode, RowCounts, ServiceCommand,
    Tab, UiState,
};
use sysman::cli::{ProcessSort, ServiceState};
use sysman::keys::{pop_char, Key};

fn counts() -> RowCounts {
    RowCounts { snapshot_loaded: true, process_rows: 5, containers: 2, connections: 3, disks: 2, services: 4 }
}

fn press(s: &mut UiState, key: Key) -> (bool, Vec<Effect>) {
    let mut effects = Vec::new();
    let quit = s.handle_key(key, counts(), &mut effects);
    (quit, effects)
}

#[test]
fn q_quits_only_outside_inputs() {
    let mut s = UiState::new();
    assert!(press(&mut s, Key::Char('q')).0);
    s.active_tab = Tab::Processes;
    press(&mut s, Key::Char('/'));
    assert!(s.filter_input);
    let (quit, _) = press(&mut s, Key::Char('q'));
    assert!(!quit);
    assert_eq!(s.process_filter, "q");
}

#[test]
fn arrows_and_digits_move_between_tabs() {
    let mut s = UiState::new();
    let (_, e) = press(&mut s, Key::Right);
    assert_eq!(s.active_tab, Tab::Cpu);
    assert_eq!(s.tab_transition, Some((Tab::Overview, 0)));
    assert!(matches!(e[0], Effect::StartTabAnimation));
    press(&mut s, Key::Left);
    press(&mut s, Key::Left);
    assert_eq!(s.active_tab, Tab::Help);
    let (_, e) = press(&mut s, Key::Char('4'));
    assert_eq!(s.active_tab, Tab::Processes);
    assert_eq!(e.len(), 1);
    assert!(matches!(e[0], Effect::RefreshProcessDetails));
    let (_, e) = press(&mut s, Key::Char('9'));
    assert_eq!(s.active_tab, Tab::Logs);
    assert!(matches!(e[0], Effect::RefreshLogsView));
    press(&mut s, Key::Char('?'));
    assert_eq!(s.active_tab, Tab::Help);
    press(&mut s, Key::Char('0'));
    assert_eq!(s.active_tab, Tab::Hardware);
    let (_, e) = press(&mut s, Key::Char('h'));
    assert_eq!(s.active_tab, Tab::Logs);
    assert_eq!(e.len(), 2);
}

#[test]
fn twelve_steps_come_back() {
    let mut s = UiState::new();
    for _ in 0..12 {
        press(&mut s, Key::Char('l'));
    }
    assert_eq!(s.active_tab, Tab::Overview);
}

#[test]
fn scrolling_stays_within_lists() {
    let mut s = UiState::new();
    press(&mut s, Key::Char('4'));
    for _ in 0..9 {
        press(&mut s, Key::Down);
    }
    assert_eq!(s.scroll.process, 4);
    press(&mut s, Key::Char('k'));
    assert_eq!(s.scroll.process, 3);
    press(&mut s, Key::Char('g'));
    assert!(s.pending_g);
    let (_, e) = press(&mut s, Key::Char('g'));
    assert_eq!(s.scroll.process, 0);
    assert!(!s.pending_g);
    assert!(matches!(e[0], Effect::RefreshProcessDetails));
    press(&mut s, Key::Char('G'));
    assert_eq!(s.scroll.process, 4);
    press(&mut s, Key::Char('g'));
    press(&mut s, Key::Char('j'));
    assert!(!s.pending_g);
}

#[test]
fn unloaded_snapshot_keeps_process_selection() {
    let mut s = UiState::new();
    s.active_tab = Tab::Processes;
    let mut effects = Vec::new();
    let c = RowCounts { snapshot_loaded: false, ..counts() };
    s.handle_key(Key::Down, c, &mut effects);
    assert_eq!(s.scroll.process, 0);
    assert!(effects.is_empty());
}

#[test]
fn log_scrolling_leaves_autoscroll() {
    let mut s = UiState::new();
    s.active_tab = Tab::Logs;
    press(&mut s, Key::Char('G'));
    assert!(s.scroll.logs_autoscroll);
    assert_eq!(s.scroll.logs, usize::MAX / 4);
    press(&mut s, Key::Up);
    assert!(!s.scroll.logs_autoscroll);
    assert_eq!(s.scroll.logs, usize::MAX / 4 - 1);
    press(&mut s, Key::Char('a'));
    assert!(s.scroll.logs_autoscroll);
    assert_eq!(s.scroll.logs, usize::MAX / 4);
}

#[test]
fn filter_input_collects_text() {
    let mut s = UiState::new();
    s.active_tab = Tab::Processes;
    press(&mut s, Key::Char('/'));
    for c in "sshd".chars() {
        press(&mut s, Key::Char(c));
    }
    press(&mut s, Key::Backspace);
    assert_eq!(s.process_filter, "ssh");
    press(&mut s, Key::Esc);
    assert!(!s.filter_input);
    assert_eq!(s.process_filter, "ssh");
    press(&mut s, Key::Esc);
    assert_eq!(s.process_filter, "");
}

#[test]
fn pin_input_takes_digits_only() {
    let mut s = UiState::new();
    s.active_tab = Tab::Processes;
    press(&mut s, Key::Char('a'));
    assert!(s.pin_input);
    for c in "1x2-".chars() {
        press(&mut s, Key::Char(c));
    }
    assert_eq!(s.pin_core_value, "12");
    let (quit, e) = press(&mut s, Key::Enter);
    assert!(!quit);
    assert!(!s.pin_input);
    assert_eq!(s.pin_core_value, "");
    assert!(matches!(&e[0], Effect::ApplyPin(v) if v == "12"));
}

#[test]
fn renice_input_allows_a_leading_minus() {
    let mut s = UiState::new();
    s.active_tab = Tab::Processes;
    press(&mut s, Key::Char('n'));
    assert!(s.renice_input);
    for c in "-5-x".chars() {
        press(&mut s, Key::Char(c));
    }
    assert_eq!(s.renice_value, "-5");
    let (_, e) = press(&mut s, Key::Enter);
    assert!(matches!(&e[0], Effect::ApplyRenice(v) if v == "-5"));
    press(&mut s, Key::Char('n'));
    press(&mut s, Key::Char('7'));
    press(&mut s, Key::Esc);
    assert!(!s.renice_input);
    assert_eq!(s.renice_value, "");
}

#[test]
fn network_tools_input_runs_on_trimmed_target() {
    let mut s = UiState::new();
    s.active_tab = Tab::Network;
    press(&mut s, Key::Char('t'));
    assert!(s.network_tool_input);
    let (_, e) = press(&mut s, Key::Enter);
    assert!(e.is_empty());
    assert_eq!(s.status_line, "Network tools target is empty");
    press(&mut s, Key::Char('t'));
    for c in " example.org ".chars() {
        press(&mut s, Key::Char(c));
    }
    let (_, e) = press(&mut s, Key::Enter);
    assert!(matches!(&e[0], Effect::RunNetworkTools(t) if t == "example.org"));
    assert_eq!(s.network_tool_value, "");
}

#[test]
fn log_search_input() {
    let mut s = UiState::new();
    s.active_tab = Tab::Logs;
    press(&mut s, Key::Char('/'));
    assert!(s.logs_regex_input);
    for c in "err".chars() {
        press(&mut s, Key::Char(c));
    }
    press(&mut s, Key::Enter);
    assert!(!s.logs_regex_input);
    assert_eq!(s.logs_query, "err");
    press(&mut s, Key::Char('/'));
    press(&mut s, Key::Esc);
    assert_eq!(s.logs_query, "");
}

#[test]
fn action_keys_ask_for_work() {
    let mut s = UiState::new();
    s.active_tab = Tab::Processes;
    let (_, e) = press(&mut s, Key::Char('s'));
    assert_eq!(s.process_sort, ProcessSort::Memory);
    assert!(matches!(e[0], Effect::Refresh));
    let (_, e) = press(&mut s, Key::Char('p'));
    assert_eq!(s.process_view, ProcessViewMode::Tree);
    assert!(matches!(e[0], Effect::RefreshProcessDetails));
    let (_, e) = press(&mut s, Key::Char('x'));
    assert!(matches!(e[0], Effect::KillProcess(false)));
    let (_, e) = press(&mut s, Key::Char('z'));
    assert!(matches!(e[0], Effect::KillProcess(true)));
    s.active_tab = Tab::Services;
    let (_, e) = press(&mut s, Key::Char('s'));
    assert_eq!(s.service_state_filter, ServiceState::Failed);
    assert_eq!(e.len(), 2);
    let (_, e) = press(&mut s, Key::Char('W'));
    assert!(matches!(e[0], Effect::ServiceAction(ServiceCommand::Unmask)));
    let (_, e) = press(&mut s, Key::Char('o'));
    assert!(matches!(e[0], Effect::ServiceAction(ServiceCommand::Restart)));
    s.active_tab = Tab::Network;
    press(&mut s, Key::Char('c'));
    assert_eq!(s.connection_state_filter, ConnectionStateFilter::Established);
    let (_, e) = press(&mut s, Key::Char('b'));
    assert!(matches!(e[0], Effect::BlockRemoteIp));
    s.active_tab = Tab::Disk;
    let (_, e) = press(&mut s, Key::Char('m'));
    assert_eq!(s.dir_scan_depth, 3);
    assert!(matches!(e[0], Effect::ScanDiskDirs));
    s.active_tab = Tab::Logs;
    press(&mut s, Key::Char('v'));
    assert_eq!(s.logs_level_filter, LogLevelFilter::Error);
    let (_, e) = press(&mut s, Key::Char('r'));
    assert!(matches!(e[0], Effect::Refresh));
    let (_, e) = press(&mut s, Key::Other);
    assert!(e.is_empty());
}

#[test]
fn pops_characters() {
    let mut t = "héllo".to_string();
    pop_char(&mut t);
    assert_eq!(t, "héll");
    let mut e = String::new();
    pop_char(&mut e);
    assert_eq!(e, "");
}
