use system_monitor_web::procs::{is_helper_process, process_command, top_process_rows};

#[test]
fn helper_process_is_ps_by_file_name() {
    assert!(is_helper_process("ps"));
    assert!(is_helper_process("/usr/bin/ps"));
    assert!(is_helper_process("/bin/ps/"));
    assert!(is_helper_process("./ps/."));
    assert!(!is_helper_process("psql"));
    assert!(!is_helper_process("/usr/bin/ps2"));
    assert!(!is_helper_process("ps/.."));
    assert!(!is_helper_process("/"));
    assert!(!is_helper_process(""));
}

#[test]
fn get_process_command_falls_back_when_nothing_names_it() {
    assert_eq!(process_command("", None, "fallback-binary"), "fallback-binary");
    assert_eq!(process_command("\0\0", Some("/usr/bin/x"), "fb"), "/usr/bin/x");
    assert_eq!(process_command("\0/sbin/init\0splash\0", Some("/x"), "fb"), "/sbin/init");
}

const PS: &str = "root 1 0.5 1.2 100 10 ? Ss 10:00 0:01 /sbin/init splash\nme 42 9.0 0.1 1 1 pts/0 R+ 10:00 0:00 ps aux\nshort line\nme 7 3.5 4.5 1 1 ? S 10:00 0:00 /usr/bin/app\n";

#[test]
fn top_rows_take_command_and_asked_column() {
    let rows = top_process_rows(PS, 2);
    assert_eq!(rows.len(), 2);
    assert_eq!((rows[0].name.as_str(), rows[0].value.as_str()), ("/sbin/init", "0.5"));
    assert_eq!((rows[1].name.as_str(), rows[1].value.as_str()), ("/usr/bin/app", "3.5"));
    let rows = top_process_rows(PS, 3);
    assert_eq!(rows[1].value, "4.5");
}

#[test]
fn top_rows_are_at_most_twenty() {
    let line = "u 1 1.0 1.0 1 1 ? S 0 0 cmd\n";
    let text = line.repeat(25);
    assert_eq!(top_process_rows(&text, 2).len(), 20);
}
