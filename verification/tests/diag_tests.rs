use netdash::diag::{apply_diag_output, split_lines, split_tokens};
use netdash::model::{AddrEntry, TrafficEntry};
use netdash::reconcile::get_network_info;

fn snapshot(names: &[&str]) -> netdash::model::NetworkInfo {
    let addrs: Vec<AddrEntry> = names
        .iter()
        .map(|n| AddrEntry { name: n.to_string(), address: "10.0.0.1".to_string(), is_ipv6: false })
        .collect();
    get_network_info("host".to_string(), None, addrs, Vec::<TrafficEntry>::new())
}

#[test]
fn tokens_split_on_runs_of_whitespace() {
    assert_eq!(split_tokens("  a bb\t\tc "), vec!["a", "bb", "c"]);
    assert_eq!(split_tokens(""), Vec::<String>::new());
    assert_eq!(split_tokens(" \t "), Vec::<String>::new());
    assert_eq!(split_tokens("one"), vec!["one"]);
}

#[test]
fn lines_split_on_line_breaks() {
    assert_eq!(split_lines("a\nb\n"), vec!["a", "b"]);
    assert_eq!(split_lines("a\n\nb"), vec!["a", "", "b"]);
    assert_eq!(split_lines("single"), vec!["single"]);
    assert_eq!(split_lines(""), Vec::<String>::new());
}

#[test]
fn diagnostic_output_backfills_counters() {
    let mut info = snapshot(&["eth0"]);
    assert_eq!(info.interfaces[0].received_bytes, 0);
    assert!(info.has_zero_stat_interface());
    let text = "Name Mtu Network Address Ipkts Ierrs Opkts Oerrs\n\
                eth0 1500 link fe:ed 10 0 99 7\n";
    apply_diag_output(&mut info, text);
    // The fifth and eighth fields, scaled by the kibibyte multiplier.
    assert_eq!(info.interfaces[0].received_bytes, 10 * 1024);
    assert_eq!(info.interfaces[0].transmitted_bytes, 7 * 1024);
    assert_eq!(info.debug_info.diag_output.as_deref(), Some(text));
}

#[test]
fn interface_name_may_be_a_prefix_of_the_parsed_name() {
    let mut info = snapshot(&["eth0"]);
    apply_diag_output(&mut info, "eth0.100 1500 link fe:ed 4 0 9 6\n");
    assert_eq!(info.interfaces[0].received_bytes, 4 * 1024);
    assert_eq!(info.interfaces[0].transmitted_bytes, 6 * 1024);
}

#[test]
fn only_the_first_claimant_takes_the_line() {
    let mut info = snapshot(&["eth0", "eth0"]);
    apply_diag_output(&mut info, "eth0 1500 link fe:ed 4 0 9 6\n");
    assert_eq!(info.interfaces[0].received_bytes, 4 * 1024);
    assert_eq!(info.interfaces[1].received_bytes, 0);
}

#[test]
fn unparsable_fields_carry_no_update() {
    let mut info = snapshot(&["eth0"]);
    apply_diag_output(&mut info, "eth0 1500 link fe:ed nonnumeric 0 9 6\n");
    assert_eq!(info.interfaces[0].received_bytes, 0);
    assert_eq!(info.interfaces[0].transmitted_bytes, 6 * 1024);
}

#[test]
fn short_lines_and_foreign_names_are_ignored() {
    let mut info = snapshot(&["eth0"]);
    apply_diag_output(&mut info, "eth0 1500\nwlan0 1500 link fe:ed 4 0 9 6\n");
    assert_eq!(info.interfaces[0].received_bytes, 0);
    assert_eq!(info.interfaces[0].transmitted_bytes, 0);
}

#[test]
fn a_scaled_counter_that_overflows_is_ignored() {
    let mut info = snapshot(&["eth0"]);
    // The value itself parses, but the kibibyte scaling would overflow.
    apply_diag_output(&mut info, "eth0 1500 link fe:ed 18446744073709551615 0 9 6\n");
    assert_eq!(info.interfaces[0].received_bytes, 0);
    assert_eq!(info.interfaces[0].transmitted_bytes, 6 * 1024);
}

#[test]
fn later_lines_overwrite_earlier_ones() {
    let mut info = snapshot(&["eth0"]);
    apply_diag_output(&mut info, "eth0 a b c 1 x y 2\neth0 a b c 3 x y 4\n");
    assert_eq!(info.interfaces[0].received_bytes, 3 * 1024);
    assert_eq!(info.interfaces[0].transmitted_bytes, 4 * 1024);
}

#[test]
fn unresolved_public_ip_renders_as_unknown() {
    let info = snapshot(&["eth0"]);
    assert_eq!(info.public_ip_text(), "Unknown");
    let resolved = get_network_info(
        "host".to_string(),
        Some("203.0.113.5".to_string()),
        Vec::new(),
        Vec::new(),
    );
    assert_eq!(resolved.public_ip_text(), "203.0.113.5");
    assert!(!resolved.has_zero_stat_interface());
}
