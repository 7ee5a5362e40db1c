use sysman::app::ProcessViewMode;
use sysman::proctable::{process_group_label, process_table_lines, tree_name, TableLine};
use sysman::procview::ProcessEntry;

fn entry(user: &str, service: &str, container: &str) -> ProcessEntry {
    ProcessEntry {
        pid: "1".to_string(),
        parent_pid: None,
        user: user.to_string(),
        service_group: service.to_string(),
        container_group: container.to_string(),
        name: "init".to_string(),
        memory: 0,
        cpu_rank: 0,
    }
}

fn labels(items: &[&str]) -> Vec<String> {
    items.iter().map(|s| s.to_string()).collect()
}

#[test]
fn group_label_follows_the_view() {
    let e = entry("alice", "ssh.service", "abc123");
    assert_eq!(process_group_label(&e, ProcessViewMode::User), "alice");
    assert_eq!(process_group_label(&e, ProcessViewMode::Service), "ssh.service");
    assert_eq!(process_group_label(&e, ProcessViewMode::Container), "abc123");
    assert_eq!(process_group_label(&e, ProcessViewMode::Flat), "-");
    assert_eq!(process_group_label(&e, ProcessViewMode::Tree), "-");
}

#[test]
fn separators_come_between_groups() {
    let l = labels(&["alice", "alice", "bob", "root", "root"]);
    assert_eq!(
        process_table_lines(&l, 0, 10),
        vec![
            TableLine::Process(0),
            TableLine::Process(1),
            TableLine::Separator("bob".to_string()),
            TableLine::Process(2),
            TableLine::Separator("root".to_string()),
            TableLine::Process(3),
            TableLine::Process(4),
        ]
    );
}

#[test]
fn table_window_starts_at_the_offset() {
    let l = labels(&["alice", "alice", "bob", "root", "root"]);
    assert_eq!(
        process_table_lines(&l, 1, 2),
        vec![TableLine::Process(1), TableLine::Separator("bob".to_string()), TableLine::Process(2)]
    );
    assert!(process_table_lines(&l, 9, 3).is_empty());
    assert!(process_table_lines(&l, 0, 0).is_empty());
}

#[test]
fn flat_views_have_no_separators() {
    let l = labels(&["-", "-", "-"]);
    assert_eq!(
        process_table_lines(&l, 0, 5),
        vec![TableLine::Process(0), TableLine::Process(1), TableLine::Process(2)]
    );
}

#[test]
fn an_empty_group_shows_no_separator_after_it() {
    let l = labels(&["", "bob", "bob", "carol"]);
    assert_eq!(
        process_table_lines(&l, 0, 5),
        vec![
            TableLine::Process(0),
            TableLine::Process(1),
            TableLine::Process(2),
            TableLine::Separator("carol".to_string()),
            TableLine::Process(3),
        ]
    );
}

#[test]
fn tree_names_are_indented_and_cut() {
    assert_eq!(tree_name("systemd", 0), "systemd");
    assert_eq!(tree_name("sshd", 1), "  └ sshd");
    assert_eq!(tree_name("bash", 2), "    └ bash");
    assert_eq!(tree_name("x", 9), "            └ x");
    assert_eq!(tree_name("a-very-long-process-name-here", 0), "a-very-long-process-name-…");
    assert_eq!(tree_name("worker-process-name", 4), "        └ worker-process-…");
}
