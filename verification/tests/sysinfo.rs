use system_monitor_web::sysinfo::{
    attribute_text, choose_hostname, first_existing_path, get_cpu_model, get_loadavg, get_uptime, number_text,
    read_i64,
};

#[test]
fn read_i64_reads_trimmed_numbers_or_zero() {
    assert_eq!(read_i64(" 42\n"), 42);
    assert_eq!(read_i64("-17"), -17);
    assert_eq!(read_i64(""), 0);
    assert_eq!(read_i64("4 2"), 0);
    assert_eq!(read_i64("9223372036854775808"), 0);
}

#[test]
fn number_text_is_trimmed_or_none_when_blank() {
    assert_eq!(number_text("  12.5\n"), Some("12.5".to_string()));
    assert_eq!(number_text(" \n"), None);
}

#[test]
fn first_existing_path_takes_first_present() {
    let paths = ["/a", "/b", "/c"];
    assert_eq!(first_existing_path(&paths, &[false, true, true]), Some("/b".to_string()));
    assert_eq!(first_existing_path(&paths, &[false, false, false]), None);
}

#[test]
fn cpu_model_is_value_of_first_model_name_line() {
    let text = "processor\t: 0\nmodel name\t: Intel(R) Core(TM) i7 CPU @ 2.80GHz\nmodel name\t: other\n";
    assert_eq!(get_cpu_model(text), "Intel(R) Core(TM) i7 CPU @ 2.80GHz");
    assert_eq!(get_cpu_model("model name: a : b\n"), "a");
    assert_eq!(get_cpu_model("model name without colon\nmodel name: x\n"), "Unknown");
    assert_eq!(get_cpu_model("processor: 0\n"), "Unknown");
}

#[test]
fn uptime_and_loadavg() {
    assert_eq!(get_uptime("12345.67 54321.00\n"), "12345.67");
    assert_eq!(get_uptime(""), "0");
    assert_eq!(get_loadavg(" 0.52 0.58 0.59 1/389 12345\n"), "0.52 0.58 0.59 1/389 12345");
}

#[test]
fn hostname_prefers_kernel_then_variable_then_localhost() {
    assert_eq!(choose_hostname(Some(" box\n"), Some("env")), "box");
    assert_eq!(choose_hostname(Some(" \n"), Some("env")), "env");
    assert_eq!(choose_hostname(None, Some("")), "localhost");
    assert_eq!(choose_hostname(None, None), "localhost");
}

#[test]
fn attribute_text_is_trimmed() {
    assert_eq!(attribute_text("Discharging\n"), "Discharging");
    assert_eq!(attribute_text(""), "");
}
