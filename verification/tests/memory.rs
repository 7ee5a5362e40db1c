use sysman::memwatch::{leak_suspected, rank_leak_suspects, track_memory_growth, MemoryLeakSuspect};

const MIB: u64 = 1_048_576;

fn procs(rows: &[(&str, u64)]) -> Vec<(String, u64)> {
    rows.iter().map(|(p, m)| (p.to_string(), *m)).collect()
}

#[test]
fn streaks_count_refreshes_of_growth() {
    let mut baseline = Vec::new();
    let mut streaks = Vec::new();
    let mut last = Vec::new();
    for step in 0..4u64 {
        let now = procs(&[("10", 100 * MIB + step * 2 * MIB), ("20", 50 * MIB)]);
        let report = track_memory_growth(&baseline, &streaks, &now);
        if step == 0 {
            assert_eq!(report.growth, vec![0, 0]);
        } else {
            assert_eq!(report.growth, vec![2 * MIB, 0]);
        }
        last = report.streak.clone();
        baseline = report.baseline;
        streaks = report.streaks;
    }
    assert_eq!(last, vec![3, 0]);
    assert_eq!(streaks, vec![("10".to_string(), 3), ("20".to_string(), 0)]);
    assert_eq!(baseline, procs(&[("10", 106 * MIB), ("20", 50 * MIB)]));
}

#[test]
fn small_growth_resets_and_gone_processes_are_dropped() {
    let baseline = procs(&[("10", 10 * MIB), ("30", 5 * MIB)]);
    let streaks = vec![("10".to_string(), 5u8), ("30".to_string(), 2u8)];
    let report = track_memory_growth(&baseline, &streaks, &procs(&[("10", 10 * MIB + 1000)]));
    assert_eq!(report.growth, vec![1000]);
    assert_eq!(report.streak, vec![0]);
    assert_eq!(report.streaks, vec![("10".to_string(), 0)]);
    let shrunk = track_memory_growth(&baseline, &Vec::new(), &procs(&[("30", MIB)]));
    assert_eq!(shrunk.growth, vec![0]);
    let saturated = track_memory_growth(&baseline, &vec![("10".to_string(), 255u8)], &procs(&[("10", 20 * MIB)]));
    assert_eq!(saturated.streak, vec![255]);
}

#[test]
fn suspects_need_a_streak_and_a_fast_rate() {
    assert!(leak_suspected(3, 524_288));
    assert!(!leak_suspected(2, 10 * MIB));
    assert!(!leak_suspected(9, 524_287));
}

fn suspect(pid: &str, memory: u64, rate: u64) -> MemoryLeakSuspect {
    MemoryLeakSuspect { pid: pid.into(), name: format!("p{pid}"), current_memory: memory, growth_rate: rate, streak: 3 }
}

#[test]
fn ranks_suspects_by_rate_then_memory() {
    let rows = vec![
        suspect("1", 10, 600_000),
        suspect("2", 30, 900_000),
        suspect("3", 20, 600_000),
        suspect("4", 1, 700_000),
        suspect("5", 1, 550_000),
        suspect("6", 1, 560_000),
        suspect("7", 1, 540_000),
    ];
    let ranked: Vec<String> = rank_leak_suspects(rows).into_iter().map(|s| s.pid).collect();
    assert_eq!(ranked, vec!["2", "4", "3", "1", "6", "5"]);
}

#[test]
fn streaks_step_by_one_or_reset() {
    let baseline = procs(&[("1", 0), ("2", 0), ("3", 0)]);
    let streaks = vec![("1".to_string(), 4u8), ("2".to_string(), 4u8), ("3".to_string(), 255u8)];
    let report = track_memory_growth(&baseline, &streaks, &procs(&[("1", MIB), ("2", MIB - 1), ("3", 2 * MIB)]));
    assert_eq!(report.streak, vec![5, 0, 255]);
}
