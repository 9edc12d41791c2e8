use system_monitor_web::bandwidth::{BandwidthScan, BandwidthTracker};
use system_monitor_web::label_map::LabelMap;
use system_monitor_web::bandwidth::BandwidthCounter;

fn scan(text: &str) -> (LabelMap<BandwidthCounter>, Vec<(String, i32)>) {
    let mut scan = BandwidthScan::new().expect("patterns compile");
    let mut owners = Vec::new();
    for line in text.lines() {
        if let Some((name, pid)) = scan.feed(line) {
            owners.push((name.clone(), pid));
            let command = format!("/bin/{name}");
            scan.open_connection(name, pid, command);
        }
    }
    (scan.into_groups(), owners)
}

const SS: &str = "0 0 10.0.0.1:22 10.0.0.2:5000 users:((\"sshd\",pid=812,fd=4))\n\t cubic bytes_sent:100 bytes_acked:1 bytes_received:40 segs_out:1\n0 0 a:1 b:2 users:((\"curl\",pid=99,fd=3))\n\t bytes_sent:5 bytes_received:7\n0 0 a:1 b:3 users:((\"sshd\",pid=812,fd=5))\n\t bytes_sent:1 bytes_received:2\n\n0 0 no owner here\n\t bytes_sent:1000 bytes_received:1000\n0 0 x users:((\"late\",pid=1,fd=1))\n";

#[test]
fn connections_are_grouped_by_pid_and_command() {
    let (groups, owners) = scan(SS);
    assert_eq!(owners.len(), 4);
    assert_eq!(owners[0], ("sshd".to_string(), 812));
    assert_eq!(groups.len(), 2);
    let sshd = groups.get("812|/bin/sshd").unwrap();
    assert_eq!((sshd.sent, sshd.recv, sshd.connections, sshd.pid), (101, 42, 2, 812));
    assert_eq!(sshd.name, "sshd");
    assert_eq!(sshd.command, "/bin/sshd");
    let curl = groups.get("99|/bin/curl").unwrap();
    assert_eq!((curl.sent, curl.recv, curl.connections), (5, 7, 1));
    assert!(!groups.contains_key("1|/bin/late"));
}

#[test]
fn detail_line_without_counters_ends_the_connection() {
    let text = "0 0 users:((\"a\",pid=5,fd=1))\n\t nothing\n\t bytes_sent:1 bytes_received:1\n";
    let (groups, _) = scan(text);
    assert_eq!(groups.len(), 0);
}

#[test]
fn bandwidth_tracker_reports_growth_per_process() {
    let mut tracker = BandwidthTracker::new();
    assert!(tracker.observe(scan(SS).0).is_none());
    let next = "0 0 a users:((\"sshd\",pid=812,fd=4))\n\t bytes_sent:300 bytes_received:10\n0 0 a users:((\"new\",pid=3,fd=4))\n\t bytes_sent:300 bytes_received:10\n";
    let deltas = tracker.observe(scan(next).0).unwrap();
    assert_eq!(deltas.len(), 1);
    assert_eq!(deltas[0].name, "sshd");
    assert_eq!(deltas[0].command, "/bin/sshd");
    assert_eq!((deltas[0].sent, deltas[0].recv, deltas[0].connections), (199, 0, 1));
}

#[test]
fn same_traffic_sample_shows_no_growth() {
    let mut tracker = BandwidthTracker::new();
    assert!(tracker.observe(scan(SS).0).is_none());
    let deltas = tracker.observe(scan(SS).0).unwrap();
    assert_eq!(deltas.len(), 2);
    assert!(deltas.iter().all(|d| d.sent == 0 && d.recv == 0));
}
