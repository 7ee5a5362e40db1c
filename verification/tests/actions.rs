use sysman::actions::{
    act_on_selected_service, kill_selected_connection, kill_selected_process, network_report,
    parse_core_value, parse_nice_value, pin_selected_process, renice_selected_process,
    selected_index, signed_decimal_string,
};
use sysman::app::{ConnectionStateFilter, UiState};
use sysman::collectors::netstat::ConnectionRow;
use sysman::collectors::provider::{CommandOutput, MockBehavior, MockProvider};
use sysman::diskscan::{scan_result, DiskScanEvent};
use sysman::labels::{connection_matches, filtered_connections};

fn ok(stdout: &str) -> MockBehavior {
    MockBehavior::Success(CommandOutput::new(stdout.to_string(), String::new(), true))
}

fn fail(stderr: &str) -> MockBehavior {
    MockBehavior::ExitFailure { exit_code: 1, stderr: stderr.to_string() }
}

#[test]
fn clamps_selection() {
    assert_eq!(selected_index(3, 0), None);
    assert_eq!(selected_index(3, 10), Some(3));
    assert_eq!(selected_index(30, 10), Some(9));
}

#[test]
fn validates_nice_values() {
    assert_eq!(parse_nice_value(" -5 "), Ok(-5));
    assert_eq!(parse_nice_value("19"), Ok(19));
    assert_eq!(parse_nice_value("20"), Err("Nice value must be in range -20..19".to_string()));
    assert_eq!(parse_nice_value("-21"), Err("Nice value must be in range -20..19".to_string()));
    assert_eq!(parse_nice_value(" x "), Err("Invalid nice value: x".to_string()));
    assert_eq!(signed_decimal_string(-20), "-20");
    assert_eq!(signed_decimal_string(0), "0");
}

#[test]
fn validates_cpu_cores() {
    assert_eq!(parse_core_value("3", 4), Ok(3));
    assert_eq!(parse_core_value("4", 4), Err("CPU core out of range: 0..3".to_string()));
    assert_eq!(parse_core_value("0", 0), Err("CPU core out of range: 0..0".to_string()));
    assert_eq!(parse_core_value("a", 4), Err("Invalid CPU core: a".to_string()));
}

#[test]
fn signals_processes() {
    let mut p = MockProvider::new(true);
    p.insert("kill -TERM 42".to_string(), ok(""));
    p.insert("kill -KILL 42".to_string(), fail(" not permitted \n"));
    assert_eq!(kill_selected_process(&mut p, false, Some("42".to_string()), false), ("No snapshot loaded".to_string(), false));
    assert_eq!(kill_selected_process(&mut p, true, None, false), ("No process selected".to_string(), false));
    assert_eq!(kill_selected_process(&mut p, true, Some("42".to_string()), false), ("SIGTERM sent to PID 42".to_string(), true));
    assert_eq!(
        kill_selected_process(&mut p, true, Some("42".to_string()), true),
        ("SIGKILL failed for PID 42: not permitted".to_string(), false)
    );
    let (m, r) = kill_selected_process(&mut p, true, Some("7".to_string()), false);
    assert!(!r);
    assert!(m.starts_with("Failed to run kill for PID 7: "));
}

#[test]
fn renices_and_pins_processes() {
    let mut p = MockProvider::new(true);
    p.insert("renice -3 -p 42".to_string(), ok(""));
    p.insert("taskset -cp 1 42".to_string(), fail(""));
    assert_eq!(renice_selected_process(&mut p, true, Some("42".to_string()), "-3"), ("Set PID 42 nice to -3".to_string(), true));
    assert_eq!(
        renice_selected_process(&mut p, true, Some("42".to_string()), "99"),
        ("Nice value must be in range -20..19".to_string(), false)
    );
    assert_eq!(pin_selected_process(&mut p, true, Some("42".to_string()), 2, "1"), ("CPU pin failed for PID 42".to_string(), false));
    assert_eq!(
        pin_selected_process(&mut p, true, Some("42".to_string()), 2, "5"),
        ("CPU core out of range: 0..1".to_string(), false)
    );
    let mut off = MockProvider::new(false);
    assert_eq!(
        pin_selected_process(&mut off, true, Some("42".to_string()), 2, "1"),
        ("CPU affinity is currently supported on Linux only".to_string(), false)
    );
}

#[test]
fn acts_on_services() {
    let mut p = MockProvider::new(true);
    p.insert("systemctl restart ssh.service".to_string(), ok("done\n"));
    p.insert("systemctl stop ssh.service".to_string(), fail("denied"));
    assert_eq!(
        act_on_selected_service(&mut p, true, Some("ssh.service".to_string()), "restart"),
        ("service ssh.service: restart OK".to_string(), true)
    );
    assert_eq!(
        act_on_selected_service(&mut p, true, Some("ssh.service".to_string()), "stop"),
        ("service ssh.service: stop failed (systemctl stop ssh.service failed: denied)".to_string(), false)
    );
    assert_eq!(act_on_selected_service(&mut p, true, None, "stop"), ("No service selected".to_string(), false));
    let mut off = MockProvider::new(false);
    assert_eq!(
        act_on_selected_service(&mut off, true, Some("x".to_string()), "stop"),
        ("service management is currently supported on Linux hosts only".to_string(), false)
    );
}

fn conn(state: &str, suspicious: Option<&str>) -> ConnectionRow {
    ConnectionRow {
        proto: "tcp".to_string(),
        state: state.to_string(),
        local: "10.0.0.1:22".to_string(),
        remote: "10.0.0.2:5000".to_string(),
        process_name: "sshd".to_string(),
        pid: Some(42),
        remote_ip: "10.0.0.2".to_string(),
        remote_port: Some(5000),
        suspicious: suspicious.map(|s| s.to_string()),
    }
}

#[test]
fn filters_connections_by_state() {
    let rows = vec![conn("ESTAB", None), conn("LISTEN", None), conn("TIME_WAIT", Some("odd")), conn("CLOSED", None)];
    assert_eq!(filtered_connections(ConnectionStateFilter::All, &rows), vec![0, 1, 2, 3]);
    assert_eq!(filtered_connections(ConnectionStateFilter::Established, &rows), vec![0]);
    assert_eq!(filtered_connections(ConnectionStateFilter::Listen, &rows), vec![1]);
    assert_eq!(filtered_connections(ConnectionStateFilter::Closing, &rows), vec![2, 3]);
    assert_eq!(filtered_connections(ConnectionStateFilter::Suspicious, &rows), vec![2]);
    assert!(connection_matches(ConnectionStateFilter::Established, &conn("ESTABLISHED", None)));
}

#[test]
fn kills_selected_connections() {
    let mut p = MockProvider::new(true);
    p.insert("ss -K dst 10.0.0.2 dport = 5000".to_string(), ok(""));
    let c = conn("ESTAB", None);
    assert_eq!(kill_selected_connection(&mut p, Some(&c)), ("Killed TCP flow to 10.0.0.2:5000".to_string(), true));
    assert_eq!(kill_selected_connection(&mut p, None), ("No connection selected".to_string(), false));
}

#[test]
fn assembles_network_report() {
    let r = network_report(
        "host",
        &vec!["1.2.3.4".to_string()],
        &vec![],
        &vec!["hop".to_string()],
        &vec!["HTTP/1.1 200".to_string()],
    );
    assert_eq!(
        r,
        vec![
            "Target: host", "", "DNS", "  1.2.3.4", "", "Ping", "", "Traceroute", "  hop", "", "HTTP probe",
            "  HTTP/1.1 200",
        ]
        .into_iter()
        .map(|s| s.to_string())
        .collect::<Vec<String>>()
    );
}

#[test]
fn runs_disk_scans() {
    let mut s = UiState::new();
    let mounts = vec!["/".to_string(), "/home".to_string()];
    assert_eq!(s.begin_disk_scan(false, &mounts), None);
    assert_eq!(s.status_line, "No snapshot loaded");
    assert_eq!(s.begin_disk_scan(true, &Vec::new()), None);
    assert_eq!(s.status_line, "No disk selected");
    s.scroll.disk = 7;
    assert_eq!(s.begin_disk_scan(true, &mounts), Some(("/home".to_string(), 2)));
    assert!(s.disk_scan_in_progress);
    assert_eq!(s.disk_scan_progress, Some("queued".to_string()));
    assert_eq!(s.status_line, "Starting async disk scan for /home (depth 2)");
    assert_eq!(s.begin_disk_scan(true, &mounts), None);
    assert_eq!(s.status_line, "Disk scan already running");
    assert!(s.apply_scan_event(DiskScanEvent::Progress("scanning directories".to_string())));
    assert_eq!(s.disk_scan_progress, Some("scanning directories".to_string()));
    let done = scan_result("/home".to_string(), vec![("/home/a".to_string(), 5)], Vec::new());
    assert!(!s.apply_scan_event(done));
    assert!(!s.disk_scan_in_progress);
    assert_eq!(s.dir_scan_rows, vec![("/home/a".to_string(), 5)]);
    assert_eq!(s.status_line, "Disk scan complete for /home (depth 2, 1 dirs, 0 files)");
    let empty = scan_result("/srv".to_string(), Vec::new(), Vec::new());
    assert!(matches!(&empty, DiskScanEvent::Failed(m) if m == "No explorer data for /srv"));
    s.apply_scan_event(DiskScanEvent::Disconnected);
    assert_eq!(s.status_line, "Disk scan worker disconnected");
}
