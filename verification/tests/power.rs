use system_monitor_web::power::{
    battery_time_remaining, energy_delta, energy_from_reading, is_ac_supply, is_battery_supply,
    is_online_external_supply, pick_ac_base, pick_battery_base, power_supply_source, PowerSource, RaplCounters, RaplTracker,
};

#[test]
fn power_source_prefers_direct_power_now() {
    assert_eq!(
        power_supply_source(12_345_000, 0, 0, 0, 0, 0, true),
        Some(PowerSource::Direct(12_345_000))
    );
    assert_eq!(
        power_supply_source(-12_345_000, 5, 5, 5, 5, 5, false),
        Some(PowerSource::Direct(12_345_000))
    );
}

#[test]
fn power_source_can_derive_battery_voltage_and_current() {
    assert_eq!(
        power_supply_source(0, 0, 5_000_000, 0, 3_250_000, 3_000_000, true),
        Some(PowerSource::Derived(5_000_000, 3_250_000))
    );
    assert_eq!(
        power_supply_source(0, -1, 0, 4, 0, -7, true),
        Some(PowerSource::Derived(4, 7))
    );
}

#[test]
fn power_source_does_not_derive_external_supply_limits() {
    assert_eq!(power_supply_source(0, 0, 5_000_000, 0, 3_250_000, 3_000_000, false), None);
}

#[test]
fn power_source_needs_voltage_and_current() {
    assert_eq!(power_supply_source(0, 0, 0, 0, 3_000_000, 0, true), None);
    assert_eq!(power_supply_source(0, 5_000_000, 0, 0, 0, 0, true), None);
}

#[test]
fn energy_delta_handles_counter_wrap() {
    assert_eq!(energy_delta(150, 100), 50);
    assert_eq!(energy_delta(10, 0xFFFF_FFF0), 0x0F + 10);
    assert_eq!(energy_delta(10, u64::MAX), 10);
    assert_eq!(energy_from_reading(-5), 0);
    assert_eq!(energy_from_reading(42), 42);
}

#[test]
fn rapl_tracker_measures_energy_between_samples() {
    let mut t = RaplTracker::new();
    let zero = RaplCounters { pkg: 0, core: 9, uncore: 9, total: 0 };
    assert_eq!(t.observe(zero), None);
    let a = RaplCounters { pkg: 100, core: 50, uncore: 10, total: 0 };
    assert_eq!(t.observe(a), None);
    let b = RaplCounters { pkg: 400, core: 80, uncore: 10, total: 0 };
    assert_eq!(t.observe(b), Some(RaplCounters { pkg: 300, core: 30, uncore: 0, total: 300 }));
    let c = RaplCounters { pkg: 500, core: 80, uncore: 10, total: 70 };
    assert_eq!(t.observe(c), Some(RaplCounters { pkg: 100, core: 0, uncore: 0, total: 70 }));
}

#[test]
fn battery_time_remaining_by_status() {
    assert_eq!(battery_time_remaining("Discharging", 2000, 4000, 9000), Some(120));
    assert_eq!(battery_time_remaining("Charging", 2000, 4000, 9000), Some(150));
    assert_eq!(battery_time_remaining("Charging", 2000, 9500, 9000), Some(0));
    assert_eq!(battery_time_remaining("Discharging", 2000, -4000, 9000), Some(0));
    assert_eq!(battery_time_remaining("Full", 2000, 4000, 9000), None);
    assert_eq!(battery_time_remaining("Discharging", 1000, 4000, 9000), None);
}

#[test]
fn supply_kinds() {
    assert!(is_battery_supply("BAT1"));
    assert!(!is_battery_supply("AC"));
    assert!(is_ac_supply("ADP1"));
    assert!(is_ac_supply("ACAD"));
    assert!(!is_ac_supply("BAT0"));
    assert!(is_online_external_supply(" USB\n", 1));
    assert!(!is_online_external_supply("Battery\n", 1));
    assert!(!is_online_external_supply("Mains", 0));
}

#[test]
fn energy_delta_recovers_the_new_reading() {
    let max = 0xFFFF_FFFFu64;
    for (current, previous) in [(150u64, 100u64), (5, max - 3), (0, max), (max, 0)] {
        let d = energy_delta(current, previous);
        if current >= previous {
            assert_eq!(previous + d, current);
        } else {
            assert_eq!(previous + d, current + max);
        }
    }
}

#[test]
fn same_rapl_sample_shows_no_energy() {
    let mut t = RaplTracker::new();
    let c = RaplCounters { pkg: 10, core: 5, uncore: 1, total: 20 };
    assert_eq!(t.observe(c), None);
    assert_eq!(t.observe(c), Some(RaplCounters { pkg: 0, core: 0, uncore: 0, total: 0 }));
}

#[test]
fn battery_and_adapter_paths() {
    assert_eq!(pick_battery_base(true, &["BAT1"]), Some("/sys/class/power_supply/BAT0".to_string()));
    assert_eq!(pick_battery_base(false, &["AC", "BAT1", "BAT2"]), Some("/sys/class/power_supply/BAT1".to_string()));
    assert_eq!(pick_battery_base(false, &["AC"]), None);
    assert_eq!(pick_ac_base(false, true, true, &[]), Some("/sys/class/power_supply/AC".to_string()));
    assert_eq!(pick_ac_base(false, false, false, &["BAT0", "ACAD2", "ADP3"]), Some("/sys/class/power_supply/ACAD2".to_string()));
    assert_eq!(pick_ac_base(false, false, false, &["BAT0"]), None);
}
