use sysman::collectors::{format_bytes, format_duration, truncate};
use sysman::labels::{
    connection_state_filter_label, format_rate, pad_status, process_sort_label, process_view_label,
    service_state_filter_label, visible_rows,
};
use sysman::app::{ConnectionStateFilter, ProcessViewMode};
use sysman::cli::{ProcessSort, ServiceState};

#[test]
fn formats_bytes_in_human_units() {
    assert_eq!(format_bytes(512), "512 B");
    assert_eq!(format_bytes(1024), "1.0 KB");
    assert_eq!(format_bytes(1024 * 1024), "1.0 MB");
}

#[test]
fn formats_duration() {
    assert_eq!(format_duration(59), "59s");
    assert_eq!(format_duration(60), "1m");
    assert_eq!(format_duration(3_661), "1h 1m");
    assert_eq!(format_duration(90_061), "1d 1h 1m");
}

#[test]
fn truncates_long_values() {
    assert_eq!(truncate("short", 10), "short");
    assert_eq!(truncate("abcdefghijkl", 6), "abcde…");
}

#[test]
fn formats_bytes_edge_values() {
    assert_eq!(format_bytes(0), "0 B");
    assert_eq!(format_bytes(1023), "1023 B");
    assert_eq!(format_bytes(1536), "1.5 KB");
    assert_eq!(format_bytes(1024 * 1024 * 1024), "1.0 GB");
    assert_eq!(format_bytes(1024u64.pow(4) * 3), "3.0 TB");
    assert_eq!(format_bytes(1024u64.pow(4) * 2048), "2048.0 TB");
}

#[test]
fn formats_duration_zero_and_whole_days() {
    assert_eq!(format_duration(0), "0s");
    assert_eq!(format_duration(86_400), "1d 0h 0m");
    assert_eq!(format_duration(3_600), "1h 0m");
}

#[test]
fn truncates_to_tiny_widths() {
    assert_eq!(truncate("abc", 3), "abc");
    assert_eq!(truncate("abcd", 1), "…");
    assert_eq!(truncate("abcd", 0), "…");
    assert_eq!(truncate("héllo wörld", 5), "héll…");
}

#[test]
fn formats_rates_and_pads_statuses() {
    assert_eq!(format_rate(2048), "2.0 KB/s");
    assert_eq!(format_rate(10), "10 B/s");
    assert_eq!(pad_status("ok"), "ok      ");
    assert_eq!(pad_status("degraded!"), "degraded!");
    assert_eq!(pad_status(""), "        ");
}

#[test]
fn counts_visible_rows() {
    assert_eq!(visible_rows(20, 3), 17);
    assert_eq!(visible_rows(3, 3), 1);
    assert_eq!(visible_rows(2, 5), 1);
    assert_eq!(visible_rows(5, 3), 2);
}

#[test]
fn names_sorts_views_and_filters() {
    assert_eq!(process_sort_label(ProcessSort::Cpu), "cpu");
    assert_eq!(process_sort_label(ProcessSort::Memory), "memory");
    assert_eq!(process_sort_label(ProcessSort::Pid), "pid");
    assert_eq!(process_sort_label(ProcessSort::Name), "name");
    assert_eq!(process_view_label(ProcessViewMode::Container), "container");
    assert_eq!(connection_state_filter_label(ConnectionStateFilter::Closing), "closing");
    assert_eq!(service_state_filter_label(ServiceState::Failed), "failed");
}
