use system_monitor_web::temps::{
    hwmon_sensor_names, is_hwmon, is_thermal_zone, thermal_sensor_names, TempInputMatcher,
};

#[test]
fn thermal_zone_names() {
    assert!(is_thermal_zone("thermal_zone3"));
    assert!(!is_thermal_zone("cooling_device0"));
    let n = thermal_sensor_names("thermal_zone0", "x86_pkg_temp\n");
    assert_eq!((n.kind.as_str(), n.id.as_str()), ("thermal", "thermal_zone0"));
    assert_eq!(n.label, "x86_pkg_temp");
    assert_eq!(n.source, "thermal/thermal_zone0");
    assert_eq!(thermal_sensor_names("thermal_zone1", " \n").label, "thermal_zone1");
}

#[test]
fn hwmon_sensor_naming() {
    assert!(is_hwmon("hwmon2"));
    let n = hwmon_sensor_names("hwmon2", "coretemp\n", "temp1", "Package id 0\n");
    assert_eq!(n.kind, "hwmon");
    assert_eq!(n.id, "hwmon2:temp1");
    assert_eq!(n.label, "Package id 0");
    assert_eq!(n.source, "coretemp/temp1");
    let n = hwmon_sensor_names("hwmon4", "", "temp3", "");
    assert_eq!(n.label, "hwmon4 temp3");
    assert_eq!(n.source, "hwmon4/temp3");
}

#[test]
fn temperature_input_files() {
    let m = TempInputMatcher::new().expect("pattern compiles");
    assert_eq!(m.index("temp1_input"), Some("temp1".to_string()));
    assert_eq!(m.index("temp12_input"), Some("temp12".to_string()));
    assert_eq!(m.index("temp1_label"), None);
    assert_eq!(m.index("xtemp1_input"), None);
    assert_eq!(m.index("temp_input"), None);
}
