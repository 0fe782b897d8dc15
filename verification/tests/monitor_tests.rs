use resourced::monitor::MonitorState;
use resourced::policy::EppAction;
use resourced::stat::{parse_stat_line, CoreCounters, CoreUsage, CpuTimes, SampleError, StatLine};

fn lines(ls: &[&str]) -> Option<Vec<Option<String>>> {
    Some(ls.iter().map(|l| Some(l.to_string())).collect())
}

const AGG: &str = "cpu  100 0 100 800 0 0 0 0 0 0";

fn counters(total: u64, user: u64, nice: u64, idle: u64) -> CoreCounters {
    CoreCounters { total, user, nice, idle }
}

#[test]
fn classifies_lines() {
    assert_eq!(
        parse_stat_line("cpu0 10 20 30 40 5 6"),
        StatLine::Core(CpuTimes { user: 10, nice: 20, system: 30, idle: 40 })
    );
    assert_eq!(
        parse_stat_line("cpu1 x 20 +30 40"),
        StatLine::Core(CpuTimes { user: 0, nice: 20, system: 30, idle: 40 })
    );
    assert_eq!(parse_stat_line("intr 1 2 3"), StatLine::Other);
    assert_eq!(parse_stat_line("ctxt 5"), StatLine::Other);
    assert_eq!(parse_stat_line("cpu0 1 2 3"), StatLine::Malformed);
    assert_eq!(parse_stat_line("   "), StatLine::Malformed);
    assert_eq!(parse_stat_line(""), StatLine::Malformed);
}

#[test]
fn first_reading_measures_from_zero() {
    let mut s = MonitorState::with_cores(2);
    let r = s
        .step(lines(&[AGG, "cpu0 80 0 10 10", "cpu1 10 0 10 80", "intr 5 5"]))
        .unwrap();
    assert_eq!(
        r.usages,
        vec![
            CoreUsage { core: 0, idle_delta: 10, total_delta: 100 },
            CoreUsage { core: 1, idle_delta: 80, total_delta: 100 },
        ]
    );
    assert_eq!(r.high_cores, vec![0]);
    assert!(r.moderate_cores.is_empty());
    assert_eq!(
        r.actions,
        vec![
            EppAction::SetEppAllCores(33),
            EppAction::Pause(13000),
            EppAction::SetEppAllCores(128),
            EppAction::Pause(500),
        ]
    );
    assert_eq!(s.core_counters(), vec![counters(100, 80, 0, 10), counters(100, 10, 0, 80)]);
    assert_eq!(s.quiet_count(), 0);
}

#[test]
fn moderate_load_asks_for_balance() {
    let mut s = MonitorState::with_cores(1);
    // 60% busy: between the two thresholds
    let r = s.step(lines(&[AGG, "cpu0 60 0 0 40"])).unwrap();
    assert!(r.high_cores.is_empty());
    assert_eq!(r.moderate_cores, vec![0]);
    assert_eq!(
        r.actions,
        vec![EppAction::SetEppAllCores(128), EppAction::SetEppAllCores(128), EppAction::Pause(500)]
    );
}

#[test]
fn thresholds_are_strict() {
    // exactly 70% busy is neither high nor moderate; exactly 52% busy is
    // neither quiet nor above the low threshold
    let mut s = MonitorState::with_cores(2);
    let r = s.step(lines(&[AGG, "cpu0 70 0 0 30", "cpu1 52 0 0 48"])).unwrap();
    assert!(r.high_cores.is_empty());
    assert!(r.moderate_cores.is_empty());
    assert_eq!(r.actions, vec![EppAction::SetEppAllCores(128), EppAction::Pause(500)]);
    let mut s = MonitorState::with_cores(1);
    let r = s.step(lines(&[AGG, "cpu0 52 0 0 48"])).unwrap();
    assert_eq!(r.actions, vec![EppAction::Pause(500)]);
    assert_eq!(s.quiet_count(), 0);
    let mut s = MonitorState::with_cores(1);
    let r = s.step(lines(&[AGG, "cpu0 71 0 0 29"])).unwrap();
    assert_eq!(r.high_cores, vec![0]);
}

#[test]
fn power_save_after_thirty_quiet_cycles() {
    let mut s = MonitorState::with_cores(1);
    let mut idle = 0u64;
    let mut busy = 0u64;
    for cycle in 0..62 {
        idle += 90;
        busy += 10;
        let line = format!("cpu0 {} 0 0 {}", busy, idle);
        let r = s.step(lines(&[AGG, &line])).unwrap();
        if cycle % 31 == 30 {
            assert_eq!(r.actions, vec![EppAction::SetEppAllCores(192), EppAction::Pause(500)]);
            assert_eq!(s.quiet_count(), 0);
        } else {
            assert_eq!(r.actions, vec![EppAction::Pause(500)]);
            assert_eq!(s.quiet_count(), (cycle % 31 + 1) as u64);
        }
    }
}

#[test]
fn load_resets_quiet_count() {
    let mut s = MonitorState::with_cores(1);
    s.step(lines(&[AGG, "cpu0 10 0 0 90"])).unwrap();
    s.step(lines(&[AGG, "cpu0 20 0 0 180"])).unwrap();
    assert_eq!(s.quiet_count(), 2);
    let r = s.step(lines(&[AGG, "cpu0 120 0 0 180"])).unwrap();
    assert_eq!(r.high_cores, vec![0]);
    assert_eq!(s.quiet_count(), 0);
}

#[test]
fn unreadable_file_counts_as_quiet() {
    let mut s = MonitorState::with_cores(4);
    let r = s.step(None).unwrap();
    assert!(r.usages.is_empty());
    assert_eq!(r.actions, vec![EppAction::Pause(500)]);
    assert_eq!(s.quiet_count(), 1);
    assert_eq!(s.core_counters(), vec![counters(0, 0, 0, 0); 4]);
}

#[test]
fn unreadable_lines_and_first_line_are_skipped() {
    let mut s = MonitorState::with_cores(2);
    let reading = Some(vec![
        Some("cpu0 1 1 1 1".to_string()),
        None,
        Some("cpu1 90 0 0 10".to_string()),
    ]);
    let r = s.step(reading).unwrap();
    assert_eq!(r.usages, vec![CoreUsage { core: 1, idle_delta: 10, total_delta: 100 }]);
    assert_eq!(s.core_counters(), vec![counters(0, 0, 0, 0), counters(100, 90, 0, 10)]);
}

#[test]
fn same_reading_twice_has_no_elapsed_time() {
    let mut s = MonitorState::with_cores(2);
    let reading = [AGG, "cpu0 10 0 0 90", "cpu1 5 0 0 95"];
    s.step(lines(&reading)).unwrap();
    let before = s.core_counters();
    let r = s.step(lines(&reading)).unwrap();
    assert_eq!(
        r.usages,
        vec![
            CoreUsage { core: 0, idle_delta: 0, total_delta: 0 },
            CoreUsage { core: 1, idle_delta: 0, total_delta: 0 },
        ]
    );
    assert_eq!(s.core_counters(), before);
    assert_eq!(r.actions, vec![EppAction::Pause(500)]);
    assert_eq!(s.quiet_count(), 0);
}

#[test]
fn idle_time_growing_without_total_is_quiet() {
    let mut s = MonitorState::with_cores(1);
    s.step(lines(&[AGG, "cpu0 50 0 0 50"])).unwrap();
    // total stays at 100, idle grows: utilization is minus infinity
    let r = s.step(lines(&[AGG, "cpu0 40 0 0 60"])).unwrap();
    assert_eq!(r.usages, vec![CoreUsage { core: 0, idle_delta: 10, total_delta: 0 }]);
    assert_eq!(r.actions, vec![EppAction::Pause(500)]);
    // the first reading (50% busy) was quiet too
    assert_eq!(s.quiet_count(), 2);
}

#[test]
fn malformed_line_fails_and_keeps_state() {
    let mut s = MonitorState::with_cores(2);
    s.step(lines(&[AGG, "cpu0 10 0 0 90"])).unwrap();
    let before = s.core_counters();
    assert_eq!(
        s.step(lines(&[AGG, "cpu0 20 0 0 180", "cpu1 1 2"])).err(),
        Some(SampleError::MalformedLine(2))
    );
    assert_eq!(s.step(lines(&[AGG, ""])).err(), Some(SampleError::MalformedLine(1)));
    assert_eq!(s.core_counters(), before);
    assert_eq!(s.quiet_count(), 1);
}

#[test]
fn other_errors() {
    let mut s = MonitorState::with_cores(1);
    assert_eq!(
        s.step(lines(&[AGG, "cpu0 1 0 0 1", "cpu1 1 0 0 1"])).err(),
        Some(SampleError::UnknownCore(2))
    );
    assert_eq!(
        s.step(lines(&[AGG, "cpu0 18446744073709551615 1 0 0"])).err(),
        Some(SampleError::CounterOverflow(1))
    );
    s.step(lines(&[AGG, "cpu0 10 0 0 10"])).unwrap();
    assert_eq!(
        s.step(lines(&[AGG, "cpu0 5 0 0 10"])).err(),
        Some(SampleError::CounterWentBack(1))
    );
    assert_eq!(
        s.step(lines(&[AGG, "cpu0 20 0 0 5"])).err(),
        Some(SampleError::CounterWentBack(1))
    );
}

#[test]
fn fresh_state() {
    let s = MonitorState::with_cores(3);
    assert_eq!(s.core_count(), 3);
    assert_eq!(s.quiet_count(), 0);
    assert_eq!(s.core_counters(), vec![counters(0, 0, 0, 0); 3]);
}
