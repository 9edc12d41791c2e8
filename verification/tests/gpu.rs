use system_monitor_web::gpu::{
    is_card_entry, is_intel_display_device, parse_nvidia_smi, GpuActivityMetric,
};

#[test]
fn activity_metric_sources() {
    let m = GpuActivityMetric::rc6_residency(75);
    assert_eq!(m.utilization, 75);
    assert_eq!(m.source, "rc6-residency");
    assert_eq!(m.detail, "Actual active time from RC6 idle residency");
    assert_eq!(GpuActivityMetric::frequency_fallback(50).source, "frequency-fallback");
    let u = GpuActivityMetric::unavailable();
    assert_eq!((u.utilization, u.source), (0, "unavailable"));
}

#[test]
fn nvidia_smi_first_line_fields() {
    let r = parse_nvidia_smi("37, 12, 1024, 8192, 55, NVIDIA GeForce RTX 3070\nsecond, line\n").unwrap();
    assert_eq!(r.name, "NVIDIA GeForce RTX 3070");
    assert_eq!(r.utilization, "37");
    assert_eq!(r.memory, "12");
    assert_eq!(r.mem_used, 1024);
    assert_eq!(r.mem_total, 8192);
    assert_eq!(r.temp, "55");
    let r = parse_nvidia_smi("1,2,x,y,3,gpu,extra").unwrap();
    assert_eq!((r.mem_used, r.mem_total), (0, 1));
    assert!(parse_nvidia_smi("1,2,3,4,5\n").is_none());
    assert!(parse_nvidia_smi("").is_none());
}

#[test]
fn intel_display_cards() {
    assert!(is_card_entry("card0"));
    assert!(!is_card_entry("card0-eDP-1"));
    assert!(!is_card_entry("renderD128"));
    assert!(is_intel_display_device("0x8086\n", "0x030000\n"));
    assert!(is_intel_display_device(" 0X8086", "0X0380"));
    assert!(!is_intel_display_device("0x10de", "0x030000"));
    assert!(!is_intel_display_device("0x8086", "0x040300"));
}
