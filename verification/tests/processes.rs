use sysman::app::{ProcessViewMode, Tab};
use sysman::cli::ProcessSort;
use sysman::collectors::netstat::{process_net_totals, rank_net_rows, ProcessNetRow};
use sysman::collectors::procs::sorted_unique_first;
use sysman::collectors::storage::{rank_disk_io_rows, DiskIoRow};
use sysman::collectors::{collection_plan, CollectionFilter};
use sysman::panels::process_panel_lines;
use sysman::procview::{filtered_indices, process_view_rows, sorted_process_order, tree_rows, ProcessEntry};

fn entry(pid: &str, parent: Option<&str>, user: &str, name: &str, memory: u64, cpu_rank: u64) -> ProcessEntry {
    ProcessEntry {
        pid: pid.to_string(),
        parent_pid: parent.map(|p| p.to_string()),
        user: user.to_string(),
        service_group: format!("{user}.service"),
        container_group: "-".to_string(),
        name: name.to_string(),
        memory,
        cpu_rank,
    }
}

fn sample() -> Vec<ProcessEntry> {
    vec![
        entry("1", None, "root", "systemd", 10, 3),
        entry("20", Some("1"), "root", "sshd", 30, 1),
        entry("31", Some("20"), "alice", "bash", 5, 2),
        entry("40", Some("1"), "alice", "Firefox", 500, 0),
        entry("41", Some("40"), "alice", "firefox-tab", 200, 0),
        entry("99", Some("7"), "bob", "orphan", 1, 4),
    ]
}

#[test]
fn filters_names_ignoring_ascii_case() {
    let e = sample();
    assert_eq!(filtered_indices(&e, ""), vec![0, 1, 2, 3, 4, 5]);
    assert_eq!(filtered_indices(&e, "   "), vec![0, 1, 2, 3, 4, 5]);
    assert_eq!(filtered_indices(&e, "FIRE"), vec![3, 4]);
    assert_eq!(filtered_indices(&e, "sh"), vec![1, 2]);
    assert!(filtered_indices(&e, "zzz").is_empty());
}

#[test]
fn filters_names_ignoring_unicode_case() {
    let e = vec![entry("1", None, "u", "ÉCOLE-daemon", 1, 0), entry("2", None, "u", "other", 1, 1)];
    assert_eq!(filtered_indices(&e, "école"), vec![0]);
    assert_eq!(filtered_indices(&e, "DAEMON"), vec![0]);
}

#[test]
fn process_list_follows_the_chosen_sort() {
    let e = sample();
    assert_eq!(sorted_process_order(&e, ProcessSort::Cpu, 10), vec![3, 4, 1, 2, 0, 5]);
    assert_eq!(sorted_process_order(&e, ProcessSort::Cpu, 4), vec![3, 4, 1, 2]);
    assert_eq!(sorted_process_order(&e, ProcessSort::Memory, 10), vec![3, 4, 1, 0, 2, 5]);
    assert_eq!(sorted_process_order(&e, ProcessSort::Pid, 10), vec![0, 1, 2, 3, 4, 5]);
    assert_eq!(sorted_process_order(&e, ProcessSort::Name, 10), vec![3, 2, 4, 5, 1, 0]);
    assert!(sorted_process_order(&e, ProcessSort::Name, 0).is_empty());
}

#[test]
fn flat_view_keeps_snapshot_order() {
    let e = sample();
    let rows = process_view_rows(&e, "", ProcessViewMode::Flat, ProcessSort::Cpu);
    assert_eq!(rows, vec![(0, 0), (1, 0), (2, 0), (3, 0), (4, 0), (5, 0)]);
    let rows = process_view_rows(&e, "fire", ProcessViewMode::Flat, ProcessSort::Cpu);
    assert_eq!(rows, vec![(3, 0), (4, 0)]);
}

#[test]
fn user_view_groups_by_user_then_busiest_then_name() {
    let e = sample();
    let rows = process_view_rows(&e, "", ProcessViewMode::User, ProcessSort::Cpu);
    let order: Vec<usize> = rows.iter().map(|r| r.0).collect();
    // alice: Firefox and firefox-tab share rank 0 ("Firefox" < "firefox-tab"), then bash;
    // bob: orphan; root: sshd (rank 1) before systemd (rank 3).
    assert_eq!(order, vec![3, 4, 2, 5, 1, 0]);
    assert!(rows.iter().all(|r| r.1 == 0));
}

#[test]
fn service_view_groups_by_unit() {
    let e = sample();
    let rows = process_view_rows(&e, "", ProcessViewMode::Service, ProcessSort::Cpu);
    let order: Vec<usize> = rows.iter().map(|r| r.0).collect();
    assert_eq!(order, vec![3, 4, 2, 5, 1, 0]);
}

#[test]
fn tree_view_nests_children_under_parents() {
    let e = sample();
    let rows = process_view_rows(&e, "", ProcessViewMode::Tree, ProcessSort::Cpu);
    // Roots: systemd (no parent) and orphan (parent 7 is not listed), busiest first:
    // systemd rank 3 before orphan rank 4. Under systemd: Firefox (rank 0), then sshd (rank 1).
    assert_eq!(rows, vec![(0, 0), (3, 1), (4, 2), (1, 1), (2, 2), (5, 0)]);
}

#[test]
fn tree_orders_siblings_by_the_process_sort() {
    let e = sample();
    let by_name = tree_rows(&e, &vec![0, 1, 2, 3, 4, 5], ProcessSort::Name);
    assert_eq!(by_name, vec![(5, 0), (0, 0), (3, 1), (4, 2), (1, 1), (2, 2)]);
    let by_pid = tree_rows(&e, &vec![0, 1, 2, 3, 4, 5], ProcessSort::Pid);
    assert_eq!(by_pid, vec![(0, 0), (1, 1), (2, 2), (3, 1), (4, 2), (5, 0)]);
    let by_memory = tree_rows(&e, &vec![0, 1, 2, 3, 4, 5], ProcessSort::Memory);
    assert_eq!(by_memory, vec![(0, 0), (3, 1), (4, 2), (1, 1), (2, 2), (5, 0)]);
}

#[test]
fn tree_of_a_filtered_list_starts_at_unlisted_parents() {
    let e = sample();
    let rows = process_view_rows(&e, "fire", ProcessViewMode::Tree, ProcessSort::Cpu);
    assert_eq!(rows, vec![(3, 0), (4, 1)]);
}

#[test]
fn tree_lists_a_pid_once_and_survives_cycles() {
    let e = vec![
        entry("5", Some("6"), "u", "a", 1, 0),
        entry("6", Some("5"), "u", "b", 1, 1),
        entry("5", None, "u", "dup", 1, 2),
    ];
    let rows = tree_rows(&e, &vec![0, 1, 2], ProcessSort::Cpu);
    // "dup" is a root; its PID 5 has child 6 whose child 5 is already listed.
    assert_eq!(rows, vec![(2, 0), (1, 1)]);
}

#[test]
fn tree_keeps_snapshot_order_among_equal_siblings() {
    let e = vec![
        entry("1", None, "u", "init", 9, 0),
        entry("2", Some("1"), "u", "b", 50, 1),
        entry("3", Some("1"), "u", "a", 50, 2),
        entry("4", Some("1"), "u", "c", 80, 3),
    ];
    let rows = tree_rows(&e, &vec![0, 1, 2, 3], ProcessSort::Memory);
    assert_eq!(rows, vec![(0, 0), (3, 1), (1, 1), (2, 1)]);
}

#[test]
fn tree_lists_unreached_processes_last() {
    let e = vec![
        entry("5", Some("6"), "u", "a", 1, 0),
        entry("6", Some("5"), "u", "b", 1, 1),
        entry("7", None, "u", "c", 1, 2),
        entry("8", Some("7"), "u", "d", 1, 3),
    ];
    let rows = tree_rows(&e, &vec![0, 1, 2, 3], ProcessSort::Cpu);
    assert_eq!(rows, vec![(2, 0), (3, 1), (0, 0), (1, 0)]);
}

const SS_TINAP: &str = "ESTAB 0 0 10.0.0.5:22 10.0.0.9:5000 users:((\"sshd\",pid=812,fd=3))\n\tcubic bytes_sent:1200 bytes_received:300 segs_out:5\nESTAB 0 0 10.0.0.5:443 1.2.3.4:6000 users:((\"nginx\",pid=90,fd=7))\n\tbytes_sent:50\nESTAB 0 0 10.0.0.5:22 10.0.0.8:5001 users:((\"sshd\",pid=812,fd=4))\n\t bytes_sent:18446744073709551615 bytes_received:10\nLISTEN 0 0 0.0.0.0:80 0.0.0.0:* users:((\"nginx\",pid=90,fd=6))\n\trto:200\n";

#[test]
fn sums_socket_counters_per_process() {
    let totals = process_net_totals(SS_TINAP);
    let got: Vec<(u32, String, u64, u64, usize)> =
        totals.into_iter().map(|t| (t.pid, t.process, t.sent, t.received, t.connections)).collect();
    assert_eq!(
        got,
        vec![
            (812, "sshd".to_string(), u64::MAX, 310, 2),
            (90, "nginx".to_string(), 50, 0, 2),
        ]
    );
}

#[test]
fn counters_need_an_owning_socket_line() {
    let totals = process_net_totals("\tbytes_sent:5\nnoise\n\tbytes_sent:7\n");
    assert!(totals.is_empty());
}

fn net_row(pid: u32, name: &str, rx: u64, tx: u64) -> ProcessNetRow {
    ProcessNetRow { pid, process: name.to_string(), rx_bps: rx, tx_bps: tx, connections: 1 }
}

#[test]
fn ranks_processes_by_traffic() {
    let rows = vec![net_row(1, "b", 10, 10), net_row(2, "a", 5, 15), net_row(3, "c", 100, 0), net_row(4, "d", 0, 1)];
    let ranked: Vec<u32> = rank_net_rows(rows, 3).iter().map(|r| r.pid).collect();
    assert_eq!(ranked, vec![3, 2, 1]);
    let all: Vec<u32> = rank_net_rows(vec![net_row(9, "x", 1, 1)], 12).iter().map(|r| r.pid).collect();
    assert_eq!(all, vec![9]);
}

#[test]
fn ranks_devices_by_throughput() {
    let rows = vec![
        DiskIoRow { device: "sdb".into(), read_bps: 0, write_bps: 0 },
        DiskIoRow { device: "nvme0n1".into(), read_bps: 4096, write_bps: 512 },
        DiskIoRow { device: "sda".into(), read_bps: 0, write_bps: 0 },
    ];
    let ranked: Vec<String> = rank_disk_io_rows(rows).into_iter().map(|r| r.device).collect();
    assert_eq!(ranked, vec!["nvme0n1", "sda", "sdb"]);
}

#[test]
fn lists_distinct_open_files_in_order() {
    let files = vec![
        "/var/log/b".to_string(),
        "".to_string(),
        "/dev/null".to_string(),
        "/var/log/b".to_string(),
        "socket:[123]".to_string(),
    ];
    assert_eq!(sorted_unique_first(files.clone(), 8), vec!["/dev/null", "/var/log/b", "socket:[123]"]);
    assert_eq!(sorted_unique_first(files, 2), vec!["/dev/null", "/var/log/b"]);
}

#[test]
fn plans_collection_by_lane_and_tab() {
    let idle = CollectionFilter::default();
    let plan = collection_plan(idle, true);
    assert!(plan.disks && !plan.services && !plan.service_counts && !plan.hardware && !plan.gpu && !plan.containers);
    let services = collection_plan(CollectionFilter { medium_lane: false, slow_lane: false, active_tab: Tab::Services }, true);
    assert!(services.services && services.service_counts && !services.disks);
    let off_linux = collection_plan(CollectionFilter { medium_lane: true, slow_lane: false, active_tab: Tab::Cpu }, false);
    assert!(off_linux.services && !off_linux.service_counts && off_linux.gpu && !off_linux.disks);
    let slow = collection_plan(CollectionFilter { medium_lane: false, slow_lane: true, active_tab: Tab::Logs }, true);
    assert!(slow.disks && slow.hardware && slow.containers && !slow.gpu && !slow.services);
}

#[test]
fn switching_views_keeps_the_processes() {
    let e = sample();
    let mut flat: Vec<usize> = process_view_rows(&e, "s", ProcessViewMode::Flat, ProcessSort::Cpu).iter().map(|r| r.0).collect();
    for mode in [ProcessViewMode::User, ProcessViewMode::Service, ProcessViewMode::Container] {
        let mut other: Vec<usize> = process_view_rows(&e, "s", mode, ProcessSort::Cpu).iter().map(|r| r.0).collect();
        other.sort();
        flat.sort();
        assert_eq!(other, flat);
    }
    let tree = process_view_rows(&e, "s", ProcessViewMode::Tree, ProcessSort::Cpu);
    for i in &flat {
        assert!(tree.iter().any(|r| e[r.0].pid == e[*i].pid));
    }
}

#[test]
fn process_panel_lists_sections_with_notes() {
    let none: Vec<String> = Vec::new();
    let env = vec!["A=1".to_string(), "B=2".to_string(), "C=3".to_string()];
    let lines = process_panel_lines(Some("42"), Some("/usr/bin/app --flag"), None, &none, &vec!["tcp 0.0.0.0:80".to_string()], &env, &none);
    let text: Vec<String> = lines
        .into_iter()
        .map(|(label, value)| if label.is_empty() { value } else { format!("{label}: {value}") })
        .collect();
    assert_eq!(
        text,
        vec![
            "PID: 42",
            "Cmdline: /usr/bin/app --flag",
            "",
            "Open files",
            "No open file entries",
            "",
            "Open ports",
            "• tcp 0.0.0.0:80",
            "",
            "Environment",
            "• A=1",
            "• B=2",
            "",
            "Maps",
            "No memory mappings",
        ]
    );
    let failed = process_panel_lines(None, None, Some("Open files unavailable: denied"), &none, &none, &none, &none);
    assert_eq!(failed[0], ("PID".to_string(), "none".to_string()));
    assert_eq!(failed[3], (String::new(), "Open files unavailable: denied".to_string()));
}

#[test]
fn interfaces_rank_by_traffic_then_name() {
    let rows = vec![
        ("lo".to_string(), 10u64, 10u64),
        ("eth0".to_string(), 500, 100),
        ("wlan0".to_string(), 0, 20),
        ("docker0".to_string(), 15, 5),
        ("eth1".to_string(), u64::MAX, u64::MAX),
    ];
    assert_eq!(sysman::collectors::netstat::rank_interfaces(&rows), vec![4, 1, 3, 0, 2]);
}
