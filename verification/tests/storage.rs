use sysman::collectors::procs::{
    cmdline_from, collect_open_ports, collect_process_details, environ_from, is_probable_container_id,
    maps_from, process_groups_from, short_container_id,
};
use sysman::collectors::provider::{CommandOutput, MockBehavior, MockProvider};
use sysman::collectors::storage::{
    collect_directory_sizes_with_depth, collect_large_files, collect_smart_health, dir_rows_from,
    disk_io_counters, file_rows_from, is_partition_name, smart_row_from,
};
use sysman::order::sort_by_size;

fn ok(stdout: &str) -> MockBehavior {
    MockBehavior::Success(CommandOutput::new(stdout.to_string(), String::new(), true))
}

fn chars(s: &str) -> Vec<char> {
    s.chars().collect()
}

#[test]
fn recognizes_partitions() {
    assert!(is_partition_name("nvme0n1p2"));
    assert!(is_partition_name("sda1"));
    assert!(is_partition_name("xvda3"));
    assert!(!is_partition_name("sda"));
    assert!(!is_partition_name("nvme0n1"));
    assert!(!is_partition_name("dm-0x"));
}

#[test]
fn reads_disk_counters() {
    let text = "   8       0 sda 100 0 2000 0 50 0 3000 0 0\n   8       1 sda1 1 0 2 0 3 0 4 0 0\n   7       0 loop0 1 0 2 0 3 0 4 0 0\n 259 0 nvme0n1 1 0 x 0 3 0 7 0 0\nshort line\n   8       0 sda 1 0 5 0 1 0 6 0 0";
    let v = disk_io_counters(text);
    assert_eq!(v, vec![("sda".to_string(), 5, 6), ("nvme0n1".to_string(), 0, 7)]);
}

#[test]
fn sorts_rows_by_size_then_name() {
    let rows = vec![("b".to_string(), 5), ("a".to_string(), 5), ("c".to_string(), 9), ("d".to_string(), 1)];
    let s = sort_by_size(rows);
    assert_eq!(s, vec![("c".to_string(), 9), ("a".to_string(), 5), ("b".to_string(), 5), ("d".to_string(), 1)]);
}

#[test]
fn parses_du_and_find_output() {
    let du = "10\t/var/a\n30\t/var/b\nbad\t/var/c\n100\t/var\nnot a row";
    assert_eq!(
        dir_rows_from(du, "/var"),
        vec![("/var/a".to_string(), 10), ("/var/b".to_string(), 30), ("/var/c".to_string(), 0)]
    );
    let find = "500\t/x/big\nnope\t/x/skip\n 7\t/x/small";
    assert_eq!(file_rows_from(find), vec![("/x/big".to_string(), 500), ("/x/small".to_string(), 7)]);
}

#[test]
fn collects_directory_sizes_largest_first() {
    let mut p = MockProvider::new(true);
    p.insert("du -xb --max-depth=2 /var".to_string(), ok("10\t/var/a\n30\t/var/b\n30\t/var/0\n100\t/var"));
    let v = collect_directory_sizes_with_depth(&mut p, "/var", 2, 2);
    assert_eq!(v, vec![("/var/0".to_string(), 30), ("/var/b".to_string(), 30)]);
    let missing = collect_directory_sizes_with_depth(&mut p, "/opt", 2, 2);
    assert!(missing.is_empty());
}

#[test]
fn collects_large_files() {
    let mut p = MockProvider::new(true);
    p.insert(
        "sh -c find \"$1\" -xdev -type f -printf '%s\\t%p\\n' 2>/dev/null | sort -nr | head -n \"$2\" -- /home 3".to_string(),
        ok("900\t/home/a.iso\n12\t/home/b"),
    );
    assert_eq!(
        collect_large_files(&mut p, "/home", 3),
        vec![("/home/a.iso".to_string(), 900), ("/home/b".to_string(), 12)]
    );
}

#[test]
fn reads_smart_reports() {
    let out = "SMART overall-health self-assessment test result: PASSED\n194 Temperature_Celsius 0x0022 036 045 000 Old_age Always - 36 (Min/Max 20/45)\n  9 Power_On_Hours 0x0032 099 099 000 Old_age Always - 1234\n";
    let r = smart_row_from("/dev/sda", Ok(CommandOutput::new(out.to_string(), String::new(), true)));
    assert_eq!(r.device, "/dev/sda");
    assert_eq!(r.overall, "PASSED");
    assert_eq!(r.temperature_c, Some(36));
    assert_eq!(r.power_on_hours, Some(1234));
    let none = smart_row_from("/dev/sdb", Ok(CommandOutput::new("nothing".to_string(), String::new(), false)));
    assert_eq!(none.overall, "failed");
    let fine = smart_row_from("/dev/sdb", Ok(CommandOutput::new(String::new(), String::new(), true)));
    assert_eq!(fine.overall, "available");
    let gone = smart_row_from("/dev/sdc", Err("no smartctl".to_string()));
    assert_eq!(gone.overall, "unavailable");
    assert_eq!(gone.temperature_c, None);
}

#[test]
fn collects_smart_health_of_scanned_devices() {
    let mut p = MockProvider::new(true);
    p.insert("which smartctl".to_string(), ok("/usr/sbin/smartctl"));
    p.insert("smartctl --scan-open".to_string(), ok("/dev/sda -d sat # x\n\n/dev/nvme0 -d nvme\n/dev/sdz"));
    p.insert("smartctl -H -A /dev/sda".to_string(), ok("SMART Health Status: OK\nCurrent Drive Temperature: 41 C"));
    p.insert("smartctl -H -A /dev/nvme0".to_string(), ok("Power On Hours: 77"));
    let rows = collect_smart_health(&mut p, 3);
    assert_eq!(rows.len(), 2);
    assert_eq!(rows[0].overall, "OK");
    assert_eq!(rows[0].temperature_c, Some(41));
    assert_eq!(rows[1].device, "/dev/nvme0");
    assert_eq!(rows[1].overall, "available");
    assert_eq!(rows[1].power_on_hours, Some(77));
    assert!(collect_smart_health(&mut MockProvider::new(false), 3).is_empty());
}

#[test]
fn finds_units_and_containers_in_cgroups() {
    let text = "0::/system.slice/docker-0123456789abcdef0123.scope\n1:name=systemd:/system.slice/sshd.service\nbad line";
    assert_eq!(process_groups_from(text), ("sshd.service".to_string(), "0123456789ab".to_string()));
    let crio = "0::/kubepods/crio-abcdefabcdefabcdef.scope";
    assert_eq!(process_groups_from(crio), ("-".to_string(), "abcdefabcdef".to_string()));
    let bare = "0::/kubepods/pod1/ABCDEF0123456789";
    assert_eq!(process_groups_from(bare), ("-".to_string(), "ABCDEF012345".to_string()));
    assert_eq!(process_groups_from(""), ("-".to_string(), "-".to_string()));
    assert!(is_probable_container_id(&chars("0123456789ab")));
    assert!(!is_probable_container_id(&chars("0123456789a")));
    assert!(!is_probable_container_id(&chars("0123456789ag")));
    assert_eq!(short_container_id(&chars("abc")), "abc");
}

#[test]
fn reads_process_files() {
    assert_eq!(cmdline_from("/usr/bin/ssh\0-v\0\0host\0"), "/usr/bin/ssh -v host");
    assert_eq!(cmdline_from(""), "");
    assert_eq!(environ_from("A=1\0B=2\0C=3\0", 2), vec!["A=1".to_string(), "B=2".to_string()]);
    let maps = "55d0-55d1 r--p 00000000 08:01 123 /usr/bin/ssh\n7f00-7f01 rw-p 00000000 00:00 0\n7f02-7f03 r-xp 0 08:01 9 /lib/libc.so";
    assert_eq!(maps_from(maps, 2), vec!["55d0-55d1 /usr/bin/ssh".to_string()]);
    let d = collect_process_details(None, Some("X=1\0"), Some(maps), 5);
    assert_eq!(d.cmdline, "-");
    assert_eq!(d.environ, vec!["X=1".to_string()]);
    assert_eq!(d.maps.len(), 2);
}

#[test]
fn lists_open_ports_of_a_process() {
    let mut p = MockProvider::new(true);
    p.insert(
        "ss -tunapH".to_string(),
        ok("tcp LISTEN 0 128 0.0.0.0:22 0.0.0.0:* users:((\"sshd\",pid=42,fd=3))\nudp UNCONN 0 0 *:5353 *:* users:((\"x\",pid=7,fd=1))\npid=42, short"),
    );
    let v = collect_open_ports(&mut p, 42, 5);
    assert_eq!(v, vec!["tcp LISTEN 0.0.0.0:22 -> 0.0.0.0:*".to_string(), "pid=42, short".to_string()]);
    assert_eq!(collect_open_ports(&mut p, 42, 1).len(), 1);
}
