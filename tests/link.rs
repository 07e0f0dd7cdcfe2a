use mybar::link::{
    get_carrier_path, get_rate, get_rx_path, get_tx_path, pretty_bytes, read_counter,
    carrier_is_on, sum_readings, Link, LinkStats,
};

#[test]
fn rate_examples() {
    assert_eq!(get_rate(100, 100, 1000), 0);
    assert_eq!(get_rate(100, 50, 1000), 50);
    assert_eq!(get_rate(50, 100, 1000), 0);
}

#[test]
fn rate_truncates_and_handles_no_time() {
    assert_eq!(get_rate(1000, 0, 3000), 333);
    assert_eq!(get_rate(1000, 0, 0), 0);
    assert_eq!(get_rate(i64::MAX, i64::MIN, 1), i64::MAX);
}

#[test]
fn pretty_examples() {
    assert_eq!(pretty_bytes(500), "500 B");
    assert_eq!(pretty_bytes(1500), "1.5 KB");
    assert_eq!(pretty_bytes(1_500_000), "1.5 MB");
}

#[test]
fn pretty_edges() {
    assert_eq!(pretty_bytes(0), "0 B");
    assert_eq!(pretty_bytes(999), "999 B");
    assert_eq!(pretty_bytes(1000), "1.0 KB");
    assert_eq!(pretty_bytes(1049), "1.0 KB");
    assert_eq!(pretty_bytes(1050), "1.1 KB");
    assert_eq!(pretty_bytes(999_999), "1000.0 KB");
    assert_eq!(pretty_bytes(1_000_000), "1.0 MB");
    assert_eq!(pretty_bytes(-5), "-5 B");
}

#[test]
fn paths() {
    assert_eq!(get_tx_path("/sys/class/net/eth0"), "/sys/class/net/eth0/statistics/tx_bytes");
    assert_eq!(get_rx_path("/sys/class/net/eth0"), "/sys/class/net/eth0/statistics/rx_bytes");
    assert_eq!(get_carrier_path("/sys/class/net/eth0"), "/sys/class/net/eth0/carrier");
}

#[test]
fn counters_and_carrier() {
    assert_eq!(read_counter("12345\n"), Some(12345));
    assert_eq!(read_counter("  7 "), Some(7));
    assert_eq!(read_counter("x1"), None);
    assert_eq!(read_counter(""), None);
    assert_eq!(read_counter("9223372036854775808"), None);
    assert!(carrier_is_on("1\n"));
    assert!(!carrier_is_on("0\n"));
    assert!(!carrier_is_on("11"));
}

#[test]
fn loopback_is_dropped() {
    let link = Link::new(vec![
        "/sys/class/net/eth0".to_string(),
        "/sys/class/net/lo".to_string(),
        "/sys/class/net/wlan0".to_string(),
    ]);
    assert_eq!(link.iface_count(), 2);
    assert_eq!(link.iface(0), "/sys/class/net/eth0");
    assert_eq!(link.iface(1), "/sys/class/net/wlan0");
}

#[test]
fn first_stats_are_zero() {
    let mut link = Link::new(vec!["/sys/class/net/eth0".to_string()]);
    let s = link.stats(&vec![Some((123_456, 789_000))], 10_000);
    assert_eq!(s, LinkStats { upload: 0, download: 0 });
}

#[test]
fn second_stats_are_rates() {
    let mut link = Link::new(vec!["a".to_string(), "b".to_string()]);
    link.stats(&vec![Some((1000, 2000)), Some((0, 0))], 10_000);
    let s = link.stats(&vec![Some((3000, 2000)), Some((1000, 500))], 12_000);
    assert_eq!(s, LinkStats { upload: 1500, download: 250 });
    let s = link.stats(&vec![Some((3000, 2000)), None], 13_000);
    assert_eq!(s, LinkStats { upload: 0, download: 0 });
}

#[test]
fn readings_summed_where_both_read() {
    let t = sum_readings(&vec![Some((1, 2)), None, Some((10, 20))]);
    assert_eq!(t, LinkStats { upload: 11, download: 22 });
}

#[test]
fn link_up_when_any_carrier() {
    let link = Link::new(vec!["a".to_string(), "b".to_string()]);
    assert!(link.is_up(&vec![None, Some("1\n".to_string())]));
    assert!(!link.is_up(&vec![Some("0\n".to_string()), None]));
    assert!(!link.is_up(&vec![]));
}
