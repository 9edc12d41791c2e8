use system_monitor_web::cpu::{
    core_deltas, cpu_usage_delta, parse_core_times_from_stat, parse_cpu_total_from_stat,
    CoreUsageTracker, CpuTimes, CpuUsageTracker,
};

#[test]
fn parse_cpu_total_from_stat_parses_cpu_line() {
    let sample = "cpu  100 5 20 200 10 0 0 0 0 0\ncpu0 10 1 2 20 1 0 0 0 0 0\n";
    let parsed = parse_cpu_total_from_stat(sample).expect("cpu line should parse");

    assert_eq!(parsed.user, 100);
    assert_eq!(parsed.nice, 5);
    assert_eq!(parsed.system, 20);
    assert_eq!(parsed.idle, 200);
    assert_eq!(parsed.iowait, 10);
}

#[test]
fn parse_cpu_total_from_stat_returns_none_without_cpu_line() {
    let sample = "intr 1\nctxt 2\n";
    assert!(parse_cpu_total_from_stat(sample).is_none());
}

#[test]
fn parse_core_times_from_stat_parses_per_core_entries() {
    let sample =
        "cpu  1 2 3 4 5 0 0 0 0 0\ncpu0 10 20 30 40 50 0 0 0 0 0\ncpu1 3 4 5 6 7 0 0 0 0 0\n";

    let parsed = parse_core_times_from_stat(sample);
    assert_eq!(parsed.len(), 2);
    assert!(parsed.contains_key("cpu0"));
    assert!(parsed.contains_key("cpu1"));

    let cpu0 = parsed.get("cpu0").expect("cpu0 must exist");
    assert_eq!(cpu0.user, 10);
    assert_eq!(cpu0.nice, 20);
    assert_eq!(cpu0.system, 30);
    assert_eq!(cpu0.idle, 40);
    assert_eq!(cpu0.iowait, 50);
    assert_eq!(cpu0.irq, 0);
    assert_eq!(cpu0.softirq, 0);
}

#[test]
fn cpu_times_counts_irq_and_softirq_as_active_time() {
    let times = CpuTimes {
        user: 10,
        nice: 2,
        system: 3,
        idle: 80,
        iowait: 5,
        irq: 7,
        softirq: 11,
    };

    assert_eq!(times.active(), 33);
    assert_eq!(times.total(), 118);
}

fn times(user: u64, idle: u64) -> CpuTimes {
    CpuTimes { user, nice: 0, system: 0, idle, iowait: 0, irq: 0, softirq: 0 }
}

#[test]
fn cpu_times_saturate_instead_of_overflowing() {
    let t = CpuTimes { user: u64::MAX, nice: 5, system: 0, idle: 7, iowait: 0, irq: 0, softirq: 0 };
    assert_eq!(t.active(), u64::MAX);
    assert_eq!(t.total(), u64::MAX);
}

#[test]
fn total_line_takes_missing_and_malformed_columns_as_zero() {
    let parsed = parse_cpu_total_from_stat("cpu 7 x 9\n").unwrap();
    assert_eq!(parsed.user, 7);
    assert_eq!(parsed.nice, 0);
    assert_eq!(parsed.system, 9);
    assert_eq!(parsed.idle, 0);
    assert_eq!(parsed.softirq, 0);
}

#[test]
fn total_line_needs_cpu_and_a_space() {
    assert!(parse_cpu_total_from_stat("cpu0 1 2 3 4 5 6 7\ncpux 1\n").is_none());
    let parsed = parse_cpu_total_from_stat("intr 5\ncpu 1 2 3 4 5 6 7\ncpu 9 9 9 9 9 9 9\n").unwrap();
    assert_eq!(parsed.user, 1);
    assert_eq!(parsed.softirq, 7);
}

#[test]
fn core_lines_need_seven_counters_and_a_core_label() {
    let parsed = parse_core_times_from_stat("cpu 1 2 3 4 5 6 7\ncpu2 1 2 3\nintr 1 2 3 4 5 6 7\ncpu3 1 2 3 4 5 6 7\ncpu3 8 8 8 8 8 8 8\n");
    assert_eq!(parsed.len(), 1);
    assert!(!parsed.contains_key("cpu"));
    assert!(!parsed.contains_key("cpu2"));
    assert_eq!(parsed.get("cpu3").unwrap().user, 8);
}

#[test]
fn usage_delta_is_growth_of_active_and_total_time() {
    assert_eq!(cpu_usage_delta(times(10, 10), times(30, 50)), Some((20, 60)));
    assert_eq!(cpu_usage_delta(times(10, 10), times(10, 10)), None);
    assert_eq!(cpu_usage_delta(times(30, 50), times(10, 10)), None);
}

#[test]
fn usage_tracker_measures_from_the_previous_sample() {
    let mut tracker = CpuUsageTracker::new();
    assert_eq!(tracker.observe(times(10, 10)), None);
    assert_eq!(tracker.observe(times(20, 30)), Some((10, 30)));
    assert_eq!(tracker.observe(times(20, 30)), None);
}

#[test]
fn core_deltas_are_sorted_by_label_and_skip_idle_cores() {
    let prev = parse_core_times_from_stat("cpu10 1 0 0 1 0 0 0\ncpu2 1 0 0 1 0 0 0\ncpu1 5 0 0 5 0 0 0\ncpu9 1 0 0 1 0 0 0\n");
    let curr = parse_core_times_from_stat("cpu9 3 0 0 1 0 0 0\ncpu10 2 0 0 3 0 0 0\ncpu1 5 0 0 5 0 0 0\ncpu2 4 0 0 2 0 0 0\ncpu7 1 0 0 1 0 0 0\n");
    let deltas = core_deltas(&prev, &curr);
    let labels: Vec<&str> = deltas.iter().map(|d| d.label.as_str()).collect();
    assert_eq!(labels, vec!["cpu10", "cpu2", "cpu9"]);
    assert_eq!((deltas[0].active, deltas[0].total), (1, 3));
    assert_eq!((deltas[1].active, deltas[1].total), (3, 4));
    assert_eq!((deltas[2].active, deltas[2].total), (2, 2));
}

#[test]
fn core_tracker_reports_nothing_on_first_sample() {
    let mut tracker = CoreUsageTracker::new();
    let first = tracker.observe(parse_core_times_from_stat("cpu0 1 0 0 1 0 0 0\n"));
    assert!(first.is_empty());
    let second = tracker.observe(parse_core_times_from_stat("cpu0 3 0 0 2 0 0 0\n"));
    assert_eq!(second.len(), 1);
    assert_eq!(second[0].label, "cpu0");
    assert_eq!((second[0].active, second[0].total), (2, 3));
}

#[test]
fn active_time_never_exceeds_total_time() {
    for t in [times(5, 0), times(0, 5), times(u64::MAX, u64::MAX)] {
        assert!(t.active() <= t.total());
    }
}

#[test]
fn same_core_sample_shows_no_core() {
    let m = parse_core_times_from_stat("cpu0 1 2 3 4 5 6 7\ncpu1 7 6 5 4 3 2 1\n");
    assert!(core_deltas(&m, &m).is_empty());
}
