use system_monitor_web::mem::{parse_meminfo, MemCounters};

#[test]
fn meminfo_sizes_are_read_in_bytes() {
    let text = "MemTotal:       16000 kB\nMemFree:         4000 kB\nMemAvailable:    9000 kB\nSwapTotal:       2000 kB\nSwapFree:         500 kB\n";
    assert_eq!(
        parse_meminfo(text),
        MemCounters {
            total: 16000 * 1024,
            avail: 9000 * 1024,
            used: 7000 * 1024,
            swap_total: 2000 * 1024,
            swap_free: 500 * 1024,
            swap_used: 1500 * 1024,
        }
    );
}

#[test]
fn meminfo_falls_back_to_free_memory() {
    let m = parse_meminfo("MemTotal: 10 kB\nMemFree: 4 kB\n");
    assert_eq!(m.avail, 4 * 1024);
    assert_eq!(m.used, 6 * 1024);
    let m = parse_meminfo("MemTotal: 10 kB\n");
    assert_eq!(m.avail, 0);
    assert_eq!(m.used, 10 * 1024);
}

#[test]
fn meminfo_used_never_exceeds_total() {
    let m = parse_meminfo("MemTotal: 10 kB\nMemAvailable: 40 kB\nSwapTotal: 1 kB\nSwapFree: 3 kB\n");
    assert_eq!(m.used, 0);
    assert_eq!(m.swap_used, 0);
}

#[test]
fn meminfo_keys_are_trimmed_and_last_wins_and_values_saturate() {
    let m = parse_meminfo(" MemTotal : 5 kB\nnonsense line\nMemTotal: 18014398509481984 kB\nSwapTotal: x kB\n");
    assert_eq!(m.total, u64::MAX);
    assert_eq!(m.swap_total, 0);
    assert_eq!(parse_meminfo(""), MemCounters { total: 0, avail: 0, used: 0, swap_total: 0, swap_free: 0, swap_used: 0 });
}
