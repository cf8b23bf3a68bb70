use netdash::model::{AddrEntry, TrafficEntry};
use netdash::reconcile::{get_network_info, is_loopback_name, lookup_counters, update_network_info};

fn addr(name: &str, address: &str, v6: bool) -> AddrEntry {
    AddrEntry { name: name.to_string(), address: address.to_string(), is_ipv6: v6 }
}

fn traffic(name: &str, rx: u64, tx: u64) -> TrafficEntry {
    TrafficEntry { name: name.to_string(), received: rx, transmitted: tx }
}

#[test]
fn exact_match_pulls_counters() {
    let info = get_network_info(
        "host".to_string(),
        None,
        vec![addr("eth0", "10.0.0.1", false)],
        vec![traffic("eth1", 1, 2), traffic("eth0", 100, 200)],
    );
    assert_eq!(info.interfaces.len(), 1);
    assert_eq!(info.interfaces[0].name, "eth0");
    assert_eq!(info.interfaces[0].received_bytes, 100);
    assert_eq!(info.interfaces[0].transmitted_bytes, 200);
    assert_eq!(info.interfaces[0].ipv4_addresses, vec!["10.0.0.1".to_string()]);
    assert!(info.interfaces[0].ipv6_addresses.is_empty());
}

#[test]
fn absent_traffic_entry_defaults_to_zero() {
    // Present in the address source, matched by nothing in the traffic
    // source (not even a shared numeric suffix): the record exists with
    // zero counters.
    let info = get_network_info(
        "host".to_string(),
        None,
        vec![addr("wlan0", "10.0.0.2", false)],
        vec![traffic("eth1", 100, 200)],
    );
    assert_eq!(info.interfaces.len(), 1);
    assert_eq!(info.interfaces[0].received_bytes, 0);
    assert_eq!(info.interfaces[0].transmitted_bytes, 0);
    assert_eq!(info.debug_info.no_stats_names, vec!["wlan0".to_string()]);
}

#[test]
fn case_insensitive_names_reconcile() {
    let info = get_network_info(
        "host".to_string(),
        None,
        vec![addr("Ethernet0", "10.0.0.3", false)],
        vec![traffic("ethernet0", 7, 9)],
    );
    assert_eq!(info.interfaces.len(), 1);
    assert_eq!(info.interfaces[0].received_bytes, 7);
    assert_eq!(info.interfaces[0].transmitted_bytes, 9);
}

#[test]
fn prefix_suffix_match_recovers_counters() {
    // "eth0" and "en0": different vendor prefixes, same trailing index.
    let info = get_network_info(
        "host".to_string(),
        None,
        vec![addr("eth0", "10.0.0.4", false)],
        vec![traffic("en0", 42, 43)],
    );
    assert_eq!(info.interfaces[0].received_bytes, 42);
    assert_eq!(info.interfaces[0].transmitted_bytes, 43);
}

#[test]
fn different_indices_never_suffix_match() {
    // "eth0" and "eth1" share a prefix but not the suffix: no match.
    let counters = lookup_counters("eth0", &vec![traffic("eth1", 42, 43)]);
    assert_eq!(counters, (0, 0));
}

#[test]
fn exact_match_beats_case_insensitive_and_suffix() {
    let counters = lookup_counters(
        "eth0",
        &vec![traffic("ETH0", 1, 1), traffic("en0", 2, 2), traffic("eth0", 3, 3)],
    );
    assert_eq!(counters, (3, 3));
}

#[test]
fn first_matching_entry_wins() {
    let counters = lookup_counters(
        "eth0",
        &vec![traffic("eth0", 5, 6), traffic("eth0", 7, 8)],
    );
    assert_eq!(counters, (5, 6));
}

#[test]
fn loopback_names_never_reach_the_snapshot() {
    let info = get_network_info(
        "host".to_string(),
        None,
        vec![
            addr("lo", "127.0.0.1", false),
            addr("lo0", "127.0.0.1", false),
            addr("Software Loopback Interface", "127.0.0.1", false),
            addr("eth0", "10.0.0.5", false),
        ],
        vec![traffic("lo", 999, 999)],
    );
    assert_eq!(info.interfaces.len(), 1);
    assert_eq!(info.interfaces[0].name, "eth0");
}

#[test]
fn loopback_marker_and_word_detection() {
    assert!(is_loopback_name("lo"));
    assert!(is_loopback_name("lo0"));
    assert!(is_loopback_name("Software LOOPBACK Interface"));
    assert!(!is_loopback_name("eth0"));
    assert!(!is_loopback_name("Lo0"));
}

#[test]
fn snapshot_records_sources_and_identity() {
    let info = get_network_info(
        "myhost".to_string(),
        Some("203.0.113.5".to_string()),
        vec![addr("eth0", "10.0.0.1", false), addr("eth0", "fe80::1", true)],
        vec![traffic("eth0", 10, 20)],
    );
    assert_eq!(info.hostname, "myhost");
    assert_eq!(info.public_ip.as_deref(), Some("203.0.113.5"));
    assert_eq!(info.update_count, 0);
    // One record per address entry, even for the same name.
    assert_eq!(info.interfaces.len(), 2);
    assert_eq!(info.interfaces[1].ipv6_addresses, vec!["fe80::1".to_string()]);
    assert!(info.interfaces[1].ipv4_addresses.is_empty());
    assert_eq!(
        info.debug_info.addr_source_names,
        vec!["eth0".to_string(), "eth0".to_string()]
    );
    assert_eq!(info.debug_info.traffic_source_names, vec!["eth0".to_string()]);
    assert!(info.debug_info.diag_output.is_none());
}

#[test]
fn refresh_rematches_counters_and_emits_samples() {
    let mut info = get_network_info(
        "host".to_string(),
        None,
        vec![addr("eth0", "10.0.0.1", false)],
        vec![traffic("eth0", 100, 50)],
    );
    assert_eq!(info.interfaces[0].usage.last_rx, 100);
    update_network_info(&mut info, &vec![traffic("eth0", 160, 80)]);
    assert_eq!(info.update_count, 1);
    assert_eq!(info.interfaces[0].received_bytes, 160);
    assert_eq!(info.interfaces[0].transmitted_bytes, 80);
    assert_eq!(*info.interfaces[0].usage.rx_history.last().unwrap(), 60);
    assert_eq!(*info.interfaces[0].usage.tx_history.last().unwrap(), 30);
    // A counter reset on the next refresh.
    update_network_info(&mut info, &vec![traffic("eth0", 40, 80)]);
    assert_eq!(info.update_count, 2);
    assert_eq!(*info.interfaces[0].usage.rx_history.last().unwrap(), 40);
    assert_eq!(*info.interfaces[0].usage.tx_history.last().unwrap(), 0);
}

#[test]
fn refresh_keeps_identity_and_order() {
    let mut info = get_network_info(
        "host".to_string(),
        None,
        vec![addr("eth0", "10.0.0.1", false), addr("wlan1", "10.0.0.2", false)],
        vec![],
    );
    update_network_info(&mut info, &vec![traffic("wlan1", 5, 6)]);
    assert_eq!(info.interfaces.len(), 2);
    assert_eq!(info.interfaces[0].name, "eth0");
    assert_eq!(info.interfaces[1].name, "wlan1");
    assert_eq!(info.interfaces[0].received_bytes, 0);
    assert_eq!(info.interfaces[1].received_bytes, 5);
    assert_eq!(info.hostname, "host");
}
