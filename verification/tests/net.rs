use system_monitor_web::net::{
    parse_net_dev_interfaces, parse_net_dev_totals, InterfaceTracker, NetTotalsTracker,
};

#[test]
fn parse_net_dev_totals_accumulates_rx_tx() {
    let sample = "Inter-|   Receive                                                |  Transmit\n face |bytes    packets errs drop fifo frame compressed multicast|bytes    packets errs drop fifo colls carrier compressed\n  lo: 100 0 0 0 0 0 0 0 100 0 0 0 0 0 0 0\neth0: 200 0 0 0 0 0 0 0 300 0 0 0 0 0 0 0\n";

    let (rx, tx) = parse_net_dev_totals(sample);
    assert_eq!(rx, 300);
    assert_eq!(tx, 400);
}

#[test]
fn parse_net_dev_interfaces_returns_per_interface_map() {
    let sample = "Inter-|   Receive                                                |  Transmit\n face |bytes    packets errs drop fifo frame compressed multicast|bytes    packets errs drop fifo colls carrier compressed\n wlan0: 200 0 0 0 0 0 0 0 300 0 0 0 0 0 0 0\n  lo: 50 0 0 0 0 0 0 0 60 0 0 0 0 0 0 0\n";

    let parsed = parse_net_dev_interfaces(sample);
    assert_eq!(parsed.len(), 2);
    assert_eq!(parsed.get("wlan0"), Some(&(200, 300)));
    assert_eq!(parsed.get("lo"), Some(&(50, 60)));
}

const HEADER: &str = "Inter-| Receive | Transmit\n face |bytes | bytes\n";

#[test]
fn net_dev_header_lines_are_skipped_even_when_they_match() {
    let text = "a: 1 0 0 0 0 0 0 0 2\nb: 3 0 0 0 0 0 0 0 4\nc: 5 0 0 0 0 0 0 0 6\n";
    assert_eq!(parse_net_dev_totals(text), (5, 6));
    assert_eq!(parse_net_dev_totals("a: 1 0 0 0 0 0 0 0 2\n"), (0, 0));
}

#[test]
fn net_dev_totals_ignore_short_lines_and_saturate() {
    let text = format!(
        "{HEADER}x: 1 2\neth0: 18446744073709551615 0 0 0 0 0 0 0 1\neth1: 5 0 0 0 0 0 0 0 1\n"
    );
    assert_eq!(parse_net_dev_totals(&text), (u64::MAX, 2));
}

#[test]
fn net_dev_numbers_too_large_count_as_zero() {
    let text = format!("{HEADER}eth0: 99999999999999999999 0 0 0 0 0 0 0 7\n");
    let parsed = parse_net_dev_interfaces(&text);
    assert_eq!(parsed.get("eth0"), Some(&(0, 7)));
}

#[test]
fn interface_tracker_reports_growth_of_interfaces_seen_twice() {
    let mut tracker = InterfaceTracker::new();
    let first = format!("{HEADER}eth0: 100 0 0 0 0 0 0 0 50\n");
    assert!(tracker.observe(parse_net_dev_interfaces(&first)).is_none());
    let second = format!("{HEADER}eth0: 160 0 0 0 0 0 0 0 40\nwlan0: 9 0 0 0 0 0 0 0 9\n");
    let deltas = tracker.observe(parse_net_dev_interfaces(&second)).unwrap();
    assert_eq!(deltas.len(), 1);
    assert_eq!(deltas[0].name, "eth0");
    assert_eq!((deltas[0].rx, deltas[0].tx), (60, 0));
}

#[test]
fn same_interface_sample_shows_no_growth() {
    let text = format!("{HEADER}eth0: 100 0 0 0 0 0 0 0 50\nlo: 7 0 0 0 0 0 0 0 7\n");
    let mut tracker = InterfaceTracker::new();
    assert!(tracker.observe(parse_net_dev_interfaces(&text)).is_none());
    let deltas = tracker.observe(parse_net_dev_interfaces(&text)).unwrap();
    assert_eq!(deltas.len(), 2);
    assert!(deltas.iter().all(|d| d.rx == 0 && d.tx == 0));
}

#[test]
fn totals_are_sums_over_interfaces_when_names_distinct() {
    let text = format!(
        "{HEADER}eth0: 100 0 0 0 0 0 0 0 50\n  lo: 7 0 0 0 0 0 0 0 8\nwlan0: 18446744073709551615 0 0 0 0 0 0 0 1\n"
    );
    let totals = parse_net_dev_totals(&text);
    let interfaces = parse_net_dev_interfaces(&text);
    let mut sums = (0u64, 0u64);
    for i in 0..interfaces.len() {
        let (_, &(rx, tx)) = interfaces.entry(i);
        sums = (sums.0.saturating_add(rx), sums.1.saturating_add(tx));
    }
    assert_eq!(totals, sums);
    assert_eq!(totals, (u64::MAX, 59));
    assert_eq!(interfaces.entry(0).0, "eth0");
    assert_eq!(interfaces.entry(2).0, "wlan0");
}

#[test]
fn net_totals_tracker_reports_growth() {
    let mut t = NetTotalsTracker::new();
    assert_eq!(t.observe(100, 50), None);
    assert_eq!(t.observe(160, 40), Some((60, 0)));
    assert_eq!(t.observe(160, 45), Some((0, 5)));
}
