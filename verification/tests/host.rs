use sysman::cli::{launches_tui, Command, ProcessSort, ServiceAction, ServiceState};
use sysman::collectors::host::{
    collect_firewall_status, collect_gpu_info, cpu_dir, cpu_zone_temperature, throttle_total, collect_security_modules, context_switches, cpu_governor, cpuinfo_value, frequency_mhz, gpu_processes_from, gpu_uuid_indexes, GpuProcessRow,
    linux_cached_memory, linux_distribution, memory_page_faults, parse_optional_text, parse_optional_u64,
    select_latest_lines, select_lines, LineFilter,
};
use sysman::collectors::gpuprocs::{gpu_memory_order, pmon_process, pmon_rows_from, rank_gpu_processes};
use sysman::collectors::plugin::{runs_on_refresh, CollectorError, CollectorMeta, RefreshStrategy};
use sysman::collectors::provider::{retries_with_sudo, CommandOutput, CommandProvider, MockBehavior, MockProvider, RealProvider};
use sysman::collectors::systemd::{count_service_states, count_systemd_services, ensure_linux_systemd, ServiceFailureDetails};
use sysman::panels::{explorer_panel_lines, failure_panel_lines, service_log_lines};
use sysman::commands::{handle_service_action, print_services};
use sysman::config::default_refresh_rate;
use sysman::theme::parse_color;
use std::time::Duration;

fn ok(stdout: &str) -> MockBehavior {
    MockBehavior::Success(CommandOutput::new(stdout.to_string(), String::new(), true))
}

#[test]
fn reads_distribution_and_cached_memory() {
    let os_release = "NAME=Debian\nPRETTY_NAME=\"Debian GNU/Linux 12 (bookworm)\"\nID=debian\n";
    assert_eq!(linux_distribution(os_release), Some("Debian GNU/Linux 12 (bookworm)".to_string()));
    assert_eq!(linux_distribution("NAME=x\n"), None);
    assert_eq!(linux_cached_memory("MemTotal: 100 kB\nCached:   2048 kB\n"), Some(2048 * 1024));
    assert_eq!(linux_cached_memory("MemTotal: 100 kB\n"), None);
}

#[test]
fn reads_cpu_facts() {
    let cpuinfo = "processor\t: 0\nmodel name\t: Example CPU @ 3.00GHz\ncache size\t: 8192 KB\n";
    assert_eq!(cpuinfo_value(cpuinfo, "model name"), Some("Example CPU @ 3.00GHz".to_string()));
    assert_eq!(cpuinfo_value(cpuinfo, "cache size"), Some("8192 KB".to_string()));
    assert_eq!(cpuinfo_value(cpuinfo, "flags"), None);
    assert_eq!(context_switches("cpu  1 2 3\nctxt 987654\nbtime 1\n"), Some(987654));
    assert_eq!(context_switches("cpu  1 2 3\n"), None);
    assert_eq!(cpu_governor("powersave\n"), Some("powersave".to_string()));
    assert_eq!(cpu_governor("  \n"), None);
    assert_eq!(frequency_mhz(2_400_000), 2400);
}

#[test]
fn reads_page_faults_only_when_both_are_there() {
    let vmstat = "pgfault 1000\npgmajfault 7\n";
    let faults = memory_page_faults(vmstat).unwrap();
    assert_eq!((faults.minor, faults.major), (1000, 7));
    assert!(memory_page_faults("pgfault 1000\n").is_none());
}

#[test]
fn parses_optional_gpu_fields() {
    assert_eq!(parse_optional_text(" GPU-123 "), Some("GPU-123".to_string()));
    assert_eq!(parse_optional_text("N/A"), None);
    assert_eq!(parse_optional_text("-"), None);
    assert_eq!(parse_optional_u64(" 512 MiB"), Some(512));
    assert_eq!(parse_optional_u64("[N/A]"), None);
    assert_eq!(parse_optional_u64("n/a"), None);
}

#[test]
fn joins_gpu_processes_to_their_devices() {
    let devices = "0, GPU-aaa, Example GPU, 10, 100, 1000, 40, 50.0, 30\n1, GPU-bbb, Example GPU, 0, 0, 1000, 35, 20.0, 30\n";
    let ids = gpu_uuid_indexes(devices);
    assert_eq!(ids, vec![("GPU-aaa".to_string(), 0), ("GPU-bbb".to_string(), 1)]);
    let apps = "GPU-bbb, 4242, python, 900\nGPU-zzz, 7, other, N/A\n";
    let rows = gpu_processes_from(apps, &ids);
    let got: Vec<(Option<u32>, u32, String, Option<u64>)> =
        rows.into_iter().map(|r| (r.gpu_index, r.pid, r.process_name, r.used_memory_mib)).collect();
    assert_eq!(got, vec![(Some(1), 4242, "python".to_string(), Some(900)), (None, 7, "other".to_string(), None)]);
}

#[test]
fn selects_lines_by_filter() {
    let last = "alice pts/0 host Mon\n\nbob pts/1 host Tue\nwtmp begins Mon\n";
    assert_eq!(select_lines(last, LineFilter::LoginRecord, 5), vec!["alice pts/0 host Mon", "bob pts/1 host Tue"]);
    assert_eq!(select_lines(last, LineFilter::LoginRecord, 1), vec!["alice pts/0 host Mon"]);
    let auth = "ok line\nFailed password for root\nx Invalid user z\n";
    assert_eq!(select_latest_lines(auth, LineFilter::FailedAuth, 5), vec!["x Invalid user z", "Failed password for root"]);
}

#[test]
fn parses_hex_colors() {
    assert_eq!(parse_color("#8B5CF6"), Ok((139, 92, 246)));
    assert_eq!(parse_color("##00ff10"), Ok((0, 255, 16)));
    assert_eq!(parse_color("#FFF"), Err("Hex color must be 6 characters (e.g. #FFFFFF)".to_string()));
    assert!(parse_color("#GG0000").is_err());
}

#[test]
fn describes_collector_errors() {
    assert_eq!(CollectorError::DependencyMissing("smartctl".into()).message(), "Dependency missing: smartctl");
    assert_eq!(
        CollectorError::CommandFailed { cmd: "ss".into(), stderr: "denied".into() }.message(),
        "Command failed: ss, stderr: denied"
    );
    assert_eq!(CollectorError::ParseFailure("bad".into()).message(), "Parse failure: bad");
    assert_eq!(CollectorError::Timeout(Duration::from_millis(1500)).message(), "Timed out after 1.5s");
}

#[test]
fn on_demand_collectors_skip_refreshes() {
    let fixed = CollectorMeta { id: "cpu", name: "CPU", strategy: RefreshStrategy::Fixed(Duration::from_secs(1)), priority: 1 };
    let on_demand = CollectorMeta { id: "smart", name: "SMART", strategy: RefreshStrategy::OnDemand, priority: 5 };
    assert!(runs_on_refresh(&fixed));
    assert!(!runs_on_refresh(&on_demand));
}

#[test]
fn retries_privileged_tools_with_sudo() {
    assert!(retries_with_sudo("smartctl", false));
    assert!(retries_with_sudo("ss", false));
    assert!(!retries_with_sudo("ss", true));
    assert!(!retries_with_sudo("ls", false));
}

#[test]
fn only_no_command_or_tui_opens_the_dashboard() {
    assert!(launches_tui(&None));
    assert!(launches_tui(&Some(Command::Tui)));
    assert!(!launches_tui(&Some(Command::Summary)));
    assert!(!launches_tui(&Some(Command::Processes { limit: 10, sort: ProcessSort::Cpu })));
    assert_eq!(default_refresh_rate(), 1000);
}

#[test]
fn prints_the_services_table() {
    let mut p = MockProvider::new(true);
    p.insert(
        "systemctl list-units --type=service --all --no-legend --no-pager".to_string(),
        ok("ssh.service loaded active running OpenSSH\ncron.service loaded active running Cron\nbad.service loaded failed failed Broken\n"),
    );
    let lines = print_services(&mut p, ServiceState::Running, 1).unwrap();
    assert_eq!(lines.len(), 4);
    assert_eq!(lines[0], "Services");
    assert_eq!(lines[1], "========");
    assert!(lines[2].starts_with("Name "));
    assert!(lines[3].starts_with("ssh.service "));
    assert!(lines[3].contains("active"));
    let mut off = MockProvider::new(false);
    assert!(print_services(&mut off, ServiceState::All, 5).is_err());
}

#[test]
fn runs_service_actions_through_systemctl() {
    let mut p = MockProvider::new(true);
    p.insert("systemctl status ssh".to_string(), ok("  active (running)  \n"));
    assert_eq!(handle_service_action(&mut p, "ssh", ServiceAction::Status), Ok("active (running)".to_string()));
    let mut off = MockProvider::new(false);
    assert_eq!(
        handle_service_action(&mut off, "ssh", ServiceAction::Restart),
        Err("service management is currently supported on Linux hosts only".to_string())
    );
}

fn echo_runner(command: &str, args: &[&str]) -> Result<CommandOutput, String> {
    if command == "missing" {
        return Err("not found".to_string());
    }
    Ok(CommandOutput::new(format!("{command} {}", args.join(" ")), String::new(), true))
}

#[test]
fn real_provider_runs_through_its_runner() {
    let runner: fn(&str, &[&str]) -> Result<CommandOutput, String> = echo_runner;
    let mut p = RealProvider::new(runner, true, true);
    assert!(p.is_linux());
    let out = p.run("which", &["ss"]).unwrap();
    assert_eq!(out.stdout, "which ss");
    assert!(p.run("missing", &[]).is_err());
    assert!(sysman::collectors::netstat::command_exists(&mut p, "ss"));
    let mut off = RealProvider::new(runner, false, false);
    assert!(!off.is_linux());
}

#[test]
fn failure_panel_shows_placeholders_and_cut_text() {
    let d = ServiceFailureDetails {
        result: String::new(),
        exec_main_status: Some(-3),
        exec_main_code: "exited".into(),
        status_text: String::new(),
        last_error: "x".repeat(80),
        active_state: "failed".into(),
        sub_state: String::new(),
        unit_file_state: "enabled".into(),
        main_pid: None,
        tasks_current: Some(4),
        memory_current: Some(2048),
        n_restarts: Some(0),
    };
    let lines = failure_panel_lines(None, Some(&d));
    let expected: Vec<(String, String)> = vec![
        ("Result".into(), "unknown".into()),
        ("Exit".into(), "exited -3".into()),
        ("State".into(), "failed / -".into()),
        ("UnitFile".into(), "enabled".into()),
        ("MainPID".into(), "-".into()),
        ("Tasks".into(), "4".into()),
        ("Memory".into(), "2.0 KB".into()),
        ("Restarts".into(), "0".into()),
        (String::new(), format!("{}…", "x".repeat(67))),
    ];
    assert_eq!(lines, expected);
    assert_eq!(failure_panel_lines(Some("boom"), Some(&d)), vec![(String::new(), "boom".to_string())]);
    assert_eq!(
        failure_panel_lines(None, None),
        vec![(String::new(), "No failure details available".to_string())]
    );
}

#[test]
fn explorer_panel_follows_the_scan() {
    let none: Vec<(String, u64)> = Vec::new();
    assert_eq!(
        explorer_panel_lines(false, None, 0, None, 2, &none),
        vec!["Directory Explorer", "", "Press `f` to scan selected mount", "Press `m` to cycle explorer depth", "Depth cycles: 1 → 2 → 3"]
    );
    assert_eq!(
        explorer_panel_lines(true, None, 7, Some("/"), 2, &none),
        vec!["Directory Explorer", "", "Scan running: working (7s)", "Please wait for async worker"]
    );
    let rows = vec![("/home/alice".to_string(), 2048), ("/var".to_string(), 512)];
    assert_eq!(
        explorer_panel_lines(false, Some("done"), 0, Some("/home"), 3, &rows),
        vec!["Directory Explorer", "", "Mount: /home (depth 3)", "• /alice 2.0 KB", "• /var 512 B"]
    );
    assert_eq!(
        explorer_panel_lines(false, None, 0, Some("/data"), 1, &none),
        vec!["Directory Explorer", "", "Mount: /data (depth 1)", "No directory data"]
    );
}

fn fail() -> MockBehavior {
    MockBehavior::ExitFailure { exit_code: 1, stderr: "no".to_string() }
}

#[test]
fn firewall_status_falls_back_through_tools() {
    let mut ufw = MockProvider::new(true);
    ufw.insert("which ufw".into(), ok("/usr/sbin/ufw"));
    ufw.insert("ufw status".into(), ok("Status: active\n\nTo Action From\n"));
    assert_eq!(collect_firewall_status(&mut ufw), vec!["Status: active", "", "To Action From"]);

    let mut fw = MockProvider::new(true);
    fw.insert("which firewall-cmd".into(), ok("/usr/bin/firewall-cmd"));
    fw.insert("firewall-cmd --state".into(), ok("running\n"));
    fw.insert("firewall-cmd --get-active-zones".into(), ok("public\n  interfaces: eth0\n"));
    assert_eq!(collect_firewall_status(&mut fw), vec!["firewalld: running", "public", "interfaces: eth0"]);

    let mut ipt = MockProvider::new(true);
    ipt.insert("which ufw".into(), ok("/usr/sbin/ufw"));
    ipt.insert("ufw status".into(), fail());
    ipt.insert("which iptables".into(), ok("/usr/sbin/iptables"));
    ipt.insert("iptables -L INPUT -n".into(), ok("Chain INPUT (policy ACCEPT)\ntarget prot opt source destination\n"));
    assert_eq!(collect_firewall_status(&mut ipt), vec!["Chain INPUT (policy ACCEPT)", "target prot opt source destination"]);

    assert!(collect_firewall_status(&mut MockProvider::new(true)).is_empty());
}

#[test]
fn gpu_info_falls_back_to_rocm_and_lspci() {
    let mut nv = MockProvider::new(true);
    nv.insert("which nvidia-smi".into(), ok("/usr/bin/nvidia-smi"));
    nv.insert(
        "nvidia-smi --query-gpu=name,temperature.gpu,utilization.gpu,memory.used,memory.total,power.draw --format=csv,noheader,nounits".into(),
        ok("Example GPU, 41, 7, 300, 8192, 25.5\n"),
    );
    assert_eq!(collect_gpu_info(&mut nv), vec!["Example GPU 41°C util 7% mem 300/8192 MiB power 25.5W"]);

    let mut rocm = MockProvider::new(true);
    rocm.insert("which rocm-smi".into(), ok("/opt/rocm/bin/rocm-smi"));
    rocm.insert(
        "rocm-smi --showproductname --showtemp --showuse --showpower".into(),
        ok("GPU[0] : Card series: Example\nnoise\ncard1 temp 40\n"),
    );
    assert_eq!(collect_gpu_info(&mut rocm), vec!["GPU[0] : Card series: Example", "card1 temp 40"]);

    let mut pci = MockProvider::new(true);
    pci.insert("which lspci".into(), ok("/usr/bin/lspci"));
    pci.insert("lspci ".into(), ok("00:02.0 VGA compatible controller: Example\n00:1f.3 Audio device: Example\n"));
    assert_eq!(collect_gpu_info(&mut pci), vec!["00:02.0 VGA compatible controller: Example"]);
}

#[test]
fn security_modules_prefer_files_then_tools() {
    let mut none = MockProvider::new(true);
    assert_eq!(
        collect_security_modules(&mut none, Some("1\n"), Some("Y\n"), Some("a\nb\n")),
        vec!["SELinux: enforcing", "AppArmor: enabled (2 profiles)"]
    );
    assert_eq!(
        collect_security_modules(&mut none, Some("0"), Some("N"), None),
        vec!["SELinux: permissive", "AppArmor: disabled"]
    );
    assert_eq!(collect_security_modules(&mut none, None, None, None), vec!["SELinux: unavailable", "AppArmor: unavailable"]);
    let mut tools = MockProvider::new(true);
    tools.insert("which getenforce".into(), ok("/usr/sbin/getenforce"));
    tools.insert("getenforce ".into(), ok("Enforcing\n"));
    tools.insert("which aa-status".into(), ok("/usr/sbin/aa-status"));
    tools.insert("aa-status ".into(), ok("apparmor module is loaded.\n 12 profiles are loaded.\n"));
    assert_eq!(
        collect_security_modules(&mut tools, None, None, None),
        vec!["SELinux: Enforcing", "AppArmor: 12 profiles are loaded."]
    );
}

#[test]
fn scripted_answers_follow_the_last_script() {
    let mut p = MockProvider::new(true);
    p.insert("uptime ".into(), ok("up 1 day\n"));
    p.insert("uptime ".into(), fail());
    p.insert("who ".into(), ok("alice\n"));
    let out = p.run("uptime", &[]).unwrap();
    assert!(!out.success);
    assert_eq!(out.stderr, "no");
    assert_eq!(p.run("who", &[]).unwrap().stdout, "alice\n");
    assert_eq!(p.run("w", &[]).err(), Some("Mock response not found for: w ".to_string()));
    p.insert("ls -l".into(), MockBehavior::MissingBinary);
    assert_eq!(p.run("ls", &["-l"]).err(), Some("Binary missing: ls".to_string()));
    p.insert("sleep 9".into(), MockBehavior::Timeout);
    assert_eq!(p.run("sleep", &["9"]).err(), Some("Command timed out: sleep".to_string()));
}

#[test]
fn journal_panel_names_the_service() {
    let logs = vec!["a".repeat(75), "short".to_string()];
    let lines = service_log_lines(Some("ssh.service"), None, &logs);
    assert_eq!(lines[0], ("Service".to_string(), "ssh.service".to_string()));
    assert_eq!(lines[1], (String::new(), String::new()));
    assert_eq!(lines[2].1, format!("{}…", "a".repeat(69)));
    assert_eq!(lines[3].1, "short");
    assert_eq!(service_log_lines(None, None, &Vec::new())[2].1, "No journal lines");
    assert_eq!(service_log_lines(None, Some("denied"), &logs).len(), 3);
}

#[test]
fn pmon_rows_skip_headers_and_idle_lines() {
    let text = "# gpu        pid  type    sm   mem   enc   dec   command\n# Idx          #   C/G     %     %     %     %   name\n    0       1234     C    10     5     -     -   python\n    0          -     -     -     -     -     -   -\n    1          0     C     1     1     -     -   idle\n  x 12 C 1\n\n    1       4321     G     2     1     -     -   Xorg\n";
    let rows = pmon_rows_from(text);
    let got: Vec<(u32, u32, String)> = rows.iter().map(|r| (r.gpu_index, r.pid, r.command.clone())).collect();
    assert_eq!(got, vec![(0, 1234, "python".to_string()), (1, 4321, "Xorg".to_string())]);
}

#[test]
fn pmon_names_prefer_comm() {
    let rows = pmon_rows_from("0 77 C 1 1 - - python3\n");
    let named = pmon_process(&rows[0], Some("worker\n"));
    assert_eq!(named.process_name, "worker");
    assert_eq!(named.gpu_index, Some(0));
    assert_eq!(named.used_memory_mib, None);
    assert_eq!(pmon_process(&rows[0], Some("  \n")).process_name, "python3");
    assert_eq!(pmon_process(&rows[0], None).process_name, "python3");
}

#[test]
fn gpu_processes_rank_by_memory_keeping_ties_in_order() {
    let row = |pid: u32, mem: Option<u64>| GpuProcessRow {
        gpu_index: Some(0),
        pid,
        process_name: format!("p{pid}"),
        used_memory_mib: mem,
    };
    let rows = vec![row(1, Some(10)), row(2, None), row(3, Some(300)), row(4, Some(10)), row(5, Some(0))];
    assert_eq!(gpu_memory_order(&rows), vec![2, 0, 3, 1, 4]);
    let ranked: Vec<u32> = rank_gpu_processes(&rows).iter().map(|r| r.pid).collect();
    assert_eq!(ranked, vec![3, 1, 4, 2, 5]);
}

#[test]
fn cpu_temperature_prefers_cpu_zones() {
    let zones = vec![
        ("acpitz\n".to_string(), 41000u64),
        ("iwlwifi_1\n".to_string(), 38000),
        ("X86_PKG_TEMP\n".to_string(), 55000),
        ("TCTL".to_string(), 60000),
    ];
    assert_eq!(cpu_zone_temperature(&zones), Some(55000));
    assert_eq!(cpu_zone_temperature(&zones[..2].to_vec()), Some(41000));
    assert_eq!(cpu_zone_temperature(&Vec::new()), None);
    assert_eq!(cpu_zone_temperature(&vec![("SoC-Thermal".to_string(), 47)]), Some(47));
}

#[test]
fn cpu_directories_are_cpu_and_digits() {
    assert!(cpu_dir("cpu0"));
    assert!(cpu_dir("cpu12"));
    assert!(!cpu_dir("cpu"));
    assert!(!cpu_dir("cpufreq"));
    assert!(!cpu_dir("cpuidle"));
    assert!(!cpu_dir("vulnerabilities"));
    assert!(!cpu_dir("cpu1a"));
}

#[test]
fn throttle_counts_add_up_and_saturate() {
    assert_eq!(throttle_total(&vec![]), None);
    assert_eq!(throttle_total(&vec![None, None]), None);
    assert_eq!(throttle_total(&vec![Some(3), None, Some(4)]), Some(7));
    assert_eq!(throttle_total(&vec![Some(u64::MAX - 1), Some(5)]), Some(u64::MAX));
    assert_eq!(throttle_total(&vec![None, Some(0)]), Some(0));
}

#[test]
fn service_management_needs_linux_and_systemd() {
    assert_eq!(ensure_linux_systemd(true, true), Ok(()));
    assert_eq!(
        ensure_linux_systemd(false, true),
        Err("service management is currently supported on Linux hosts only".to_string())
    );
    assert_eq!(
        ensure_linux_systemd(true, false),
        Err("service management needs systemd, which this host does not run".to_string())
    );
    let mut p = MockProvider::new(true);
    p.set_systemd(false);
    p.insert("systemctl status ssh".to_string(), ok("active\n"));
    assert_eq!(
        handle_service_action(&mut p, "ssh", ServiceAction::Status),
        Err("service management needs systemd, which this host does not run".to_string())
    );
    assert!(print_services(&mut p, ServiceState::All, 5).is_err());
}

fn state_key(state: &str) -> String {
    format!("systemctl list-units --type=service --state {state} --all --no-legend --no-pager")
}

#[test]
fn counts_services_in_each_state() {
    let mut p = MockProvider::new(true);
    p.insert(state_key("running"), ok("a.service\nb.service\n"));
    p.insert(state_key("failed"), ok("c.service\n"));
    p.insert(state_key("inactive"), ok(""));
    p.insert(state_key("activating"), ok("d.service\n\n"));
    p.insert(state_key("deactivating"), ok("e\nf\ng\n"));
    let c = count_service_states(&mut p).unwrap();
    assert_eq!(
        (c.running, c.failed, c.inactive, c.activating, c.deactivating),
        (2, 1, 0, 1, 3)
    );
    let mut broken = MockProvider::new(true);
    broken.insert(state_key("running"), ok("a.service\n"));
    broken.insert(
        state_key("failed"),
        MockBehavior::Success(CommandOutput::new(String::new(), "boom".to_string(), false)),
    );
    broken.insert(state_key("inactive"), ok("x\n"));
    assert!(count_service_states(&mut broken).is_err());
}

#[test]
fn counts_running_and_failed_services() {
    let mut p = MockProvider::new(true);
    p.insert(
        "systemctl list-units --type=service --state=running --no-legend --no-pager".to_string(),
        ok("a.service\nb.service\n"),
    );
    p.insert(
        "systemctl list-units --type=service --state=failed --no-legend --no-pager".to_string(),
        ok("\n"),
    );
    assert_eq!(count_systemd_services(&mut p), Ok((2, 0)));
}
