//! Interface identity reconciliation: merging the address-configuration
//! enumeration and the traffic-counter enumeration into one canonical
//! interface record per adapter, with an ordered list of matching rules
//! and loopback filtering.

use vstd::prelude::*;
use crate::model::{AddrEntry, DebugInfo, Interface, NetworkInfo, TrafficEntry};
use crate::rate::NetworkUsage;
use crate::text::{
    contains_ci, contains_ignore_ascii_case, eq_ignore_ascii_case, names_suffix_match, str_eq,
    str_eq_ci, str_starts_with, suffix_match,
};

verus! {

/// One rule of the matching policy, in the order the policy tries them.
#[derive(Debug, Clone, Copy)]
pub enum MatchRule {
    Exact,
    CaseInsensitive,
    Suffix,
}

/// Does `ename` (a traffic-source name) match `name` (an address-source
/// name) under the given rule?
pub open spec fn rule_matches(rule: MatchRule, name: Seq<char>, ename: Seq<char>) -> bool {
    match rule {
        MatchRule::Exact => ename == name,
        MatchRule::CaseInsensitive => str_eq_ci(ename, name),
        MatchRule::Suffix => suffix_match(name, ename),
    }
}

/// Index of the first traffic entry matching `name` under `rule`.
pub open spec fn find_by(rule: MatchRule, name: Seq<char>, ts: Seq<TrafficEntry>) -> Option<int>
    decreases ts.len(),
{
    if ts.len() == 0 {
        None
    } else if rule_matches(rule, name, ts[0].name@) {
        Some(0int)
    } else {
        match find_by(rule, name, ts.drop_first()) {
            Some(j) => Some(j + 1),
            None => None,
        }
    }
}

/// `find_by` returns the first matching index: if everything before `i`
/// fails the rule and `i` (when in range) passes it, the result is `i`,
/// or nothing when `i` is the length.
pub proof fn lemma_find_by_first(rule: MatchRule, name: Seq<char>, ts: Seq<TrafficEntry>, i: int)
    requires
        0 <= i <= ts.len(),
        forall|j: int| 0 <= j < i ==> !rule_matches(rule, name, (#[trigger] ts[j]).name@),
        i < ts.len() ==> rule_matches(rule, name, ts[i].name@),
    ensures
        find_by(rule, name, ts) == if i == ts.len() {
            None
        } else {
            Some(i)
        },
    decreases ts.len(),
{
    if ts.len() > 0 {
        if rule_matches(rule, name, ts[0].name@) {
            assert(i == 0);
        } else {
            assert(forall|j: int|
                0 <= j < ts.len() - 1 ==> #[trigger] ts.drop_first()[j] == ts[j + 1]);
            lemma_find_by_first(rule, name, ts.drop_first(), i - 1);
        }
    }
}

/// The matching policy applied in order, first match wins: exact name
/// equality, then case-insensitive equality, then prefix-stripped suffix
/// equality.
pub open spec fn matched_index(name: Seq<char>, ts: Seq<TrafficEntry>) -> Option<int> {
    if find_by(MatchRule::Exact, name, ts) is Some {
        find_by(MatchRule::Exact, name, ts)
    } else if find_by(MatchRule::CaseInsensitive, name, ts) is Some {
        find_by(MatchRule::CaseInsensitive, name, ts)
    } else {
        find_by(MatchRule::Suffix, name, ts)
    }
}

/// The counters reconciliation assigns to `name`: those of the best
/// matching traffic entry, or zero when nothing matches.
pub open spec fn matched_counters(name: Seq<char>, ts: Seq<TrafficEntry>) -> (u64, u64) {
    match matched_index(name, ts) {
        Some(i) => (ts[i].received, ts[i].transmitted),
        None => (0u64, 0u64),
    }
}

/// Executable form of [`rule_matches`].
pub fn rule_applies(rule: MatchRule, name: &str, ename: &str) -> (r: bool)
    ensures
        r == rule_matches(rule, name@, ename@),
{
    match rule {
        MatchRule::Exact => str_eq(ename, name),
        MatchRule::CaseInsensitive => eq_ignore_ascii_case(ename, name),
        MatchRule::Suffix => names_suffix_match(name, ename),
    }
}

/// Index of the first traffic entry matching `name` under `rule`.
pub fn find_match(rule: MatchRule, name: &str, ts: &Vec<TrafficEntry>) -> (r: Option<usize>)
    ensures
        match r {
            Some(i) => i < ts@.len() && find_by(rule, name@, ts@) == Some(i as int),
            None => find_by(rule, name@, ts@) is None,
        },
{
    let mut i: usize = 0;
    while i < ts.len()
        invariant
            i <= ts@.len(),
            forall|j: int| 0 <= j < i ==> !rule_matches(rule, name@, (#[trigger] ts@[j]).name@),
        decreases ts@.len() - i,
    {
        if rule_applies(rule, name, ts[i].name.as_str()) {
            proof {
                lemma_find_by_first(rule, name@, ts@, i as int);
            }
            return Some(i);
        }
        i = i + 1;
    }
    proof {
        lemma_find_by_first(rule, name@, ts@, ts@.len() as int);
    }
    None
}

/// The counters for `name` under the full matching policy.
pub fn lookup_counters(name: &str, ts: &Vec<TrafficEntry>) -> (r: (u64, u64))
    ensures
        r == matched_counters(name@, ts@),
{
    match find_match(MatchRule::Exact, name, ts) {
        Some(i) => {
            return (ts[i].received, ts[i].transmitted);
        },
        None => {},
    }
    match find_match(MatchRule::CaseInsensitive, name, ts) {
        Some(i) => {
            return (ts[i].received, ts[i].transmitted);
        },
        None => {},
    }
    match find_match(MatchRule::Suffix, name, ts) {
        Some(i) => {
            return (ts[i].received, ts[i].transmitted);
        },
        None => {},
    }
    (0, 0)
}

/// The word a name is searched for to classify it as loopback.
pub open spec fn loopback_word() -> Seq<char> {
    seq!['l', 'o', 'o', 'p', 'b', 'a', 'c', 'k']
}

/// A loopback name: it starts with the marker token `lo`, or contains
/// the word `loopback` in any case.
pub open spec fn spec_is_loopback(name: Seq<char>) -> bool {
    (name.len() >= 2 && name[0] == 'l' && name[1] == 'o') || contains_ci(name, loopback_word())
}

/// Executable form of [`spec_is_loopback`].
pub fn is_loopback_name(name: &str) -> (r: bool)
    ensures
        r == spec_is_loopback(name@),
{
    proof {
        reveal_strlit("lo");
        reveal_strlit("loopback");
        assert("loopback"@ =~= loopback_word());
    }
    if str_starts_with(name, "lo") {
        return true;
    }
    contains_ignore_ascii_case(name, "loopback")
}

/// The address entries that survive loopback filtering, in source order.
pub open spec fn kept_entries(addrs: Seq<AddrEntry>) -> Seq<AddrEntry>
    decreases addrs.len(),
{
    if addrs.len() == 0 {
        Seq::empty()
    } else {
        let rest = kept_entries(addrs.drop_last());
        if spec_is_loopback(addrs.last().name@) {
            rest
        } else {
            rest.push(addrs.last())
        }
    }
}

/// No loopback-named entry survives the filter.
pub proof fn lemma_kept_entries_no_loopback(addrs: Seq<AddrEntry>)
    ensures
        forall|i: int|
            0 <= i < kept_entries(addrs).len() ==> !spec_is_loopback(
                (#[trigger] kept_entries(addrs)[i]).name@,
            ),
    decreases addrs.len(),
{
    if addrs.len() > 0 {
        lemma_kept_entries_no_loopback(addrs.drop_last());
        let rest = kept_entries(addrs.drop_last());
        if !spec_is_loopback(addrs.last().name@) {
            assert forall|i: int|
                0 <= i < kept_entries(addrs).len() implies !spec_is_loopback(
                (kept_entries(addrs)[i]).name@,
            ) by {
                if i < rest.len() {
                    assert(kept_entries(addrs)[i] == rest[i]);
                } else {
                    assert(kept_entries(addrs)[i] == addrs.last());
                }
            }
        }
    }
}

/// Everything reconciliation promises of one produced interface record,
/// relative to its address entry and the traffic enumeration: the name
/// and single address come from the address source, the counters from
/// the best matching traffic entry (zero when none matches), the never
/// populated fields stay empty, and the rate tracker has recorded the
/// counters as its baseline with a still all-zero window.
pub open spec fn reconciled_from(intf: Interface, entry: AddrEntry, ts: Seq<TrafficEntry>) -> bool {
    &&& intf.name@ == entry.name@
    &&& (intf.received_bytes, intf.transmitted_bytes) == matched_counters(entry.name@, ts)
    &&& if entry.is_ipv6 {
        intf.ipv4_addresses@.len() == 0 && intf.ipv6_addresses@.len() == 1
            && intf.ipv6_addresses@[0]@ == entry.address@
    } else {
        intf.ipv4_addresses@.len() == 1 && intf.ipv4_addresses@[0]@ == entry.address@
            && intf.ipv6_addresses@.len() == 0
    }
    &&& intf.mac_address is None
    &&& intf.status == true
    &&& intf.speed is None
    &&& intf.mtu is None
    &&& intf.usage.wf()
    &&& intf.usage.warm
    &&& intf.usage.last_rx == intf.received_bytes
    &&& intf.usage.last_tx == intf.transmitted_bytes
    &&& forall|k: int|
        0 <= k < intf.usage.rx_history@.len() ==> intf.usage.rx_history@[k] == 0
    &&& forall|k: int|
        0 <= k < intf.usage.tx_history@.len() ==> intf.usage.tx_history@[k] == 0
}

/// The names of the interfaces whose counters are zero in both
/// directions, in order.
pub open spec fn zero_stat_names(ifs: Seq<Interface>) -> Seq<Seq<char>>
    decreases ifs.len(),
{
    if ifs.len() == 0 {
        Seq::empty()
    } else {
        let rest = zero_stat_names(ifs.drop_last());
        if ifs.last().received_bytes == 0 && ifs.last().transmitted_bytes == 0 {
            rest.push(ifs.last().name@)
        } else {
            rest
        }
    }
}

/// Build the snapshot for one tick from the two enumerations: one
/// interface per non-loopback address entry, counters pulled from the
/// best matching traffic entry, rate trackers given their first
/// observation, and the diagnostic name collections recorded.
pub fn get_network_info(
    hostname: String,
    public_ip: Option<String>,
    addrs: Vec<AddrEntry>,
    traffic: Vec<TrafficEntry>,
) -> (r: NetworkInfo)
    ensures
        r.hostname == hostname,
        r.public_ip == public_ip,
        r.update_count == 0,
        r.wf(),
        r.interfaces@.len() == kept_entries(addrs@).len(),
        forall|i: int|
            0 <= i < r.interfaces@.len() ==> reconciled_from(
                #[trigger] r.interfaces@[i],
                kept_entries(addrs@)[i],
                traffic@,
            ),
        forall|i: int|
            0 <= i < r.interfaces@.len() ==> !spec_is_loopback(
                (#[trigger] r.interfaces@[i]).name@,
            ),
        r.debug_info.addr_source_names@.len() == addrs@.len(),
        forall|i: int|
            0 <= i < addrs@.len() ==> (#[trigger] r.debug_info.addr_source_names@[i])@
                == addrs@[i].name@,
        r.debug_info.traffic_source_names@.len() == traffic@.len(),
        forall|i: int|
            0 <= i < traffic@.len() ==> (#[trigger] r.debug_info.traffic_source_names@[i])@
                == traffic@[i].name@,
        crate::text::views_of(r.debug_info.no_stats_names@) == zero_stat_names(r.interfaces@),
        r.debug_info.diag_output is None,
{
    let mut addr_names: Vec<String> = Vec::new();
    let mut i: usize = 0;
    while i < addrs.len()
        invariant
            i <= addrs@.len(),
            addr_names@.len() == i,
            forall|j: int| 0 <= j < i ==> (#[trigger] addr_names@[j])@ == addrs@[j].name@,
        decreases addrs@.len() - i,
    {
        addr_names.push(addrs[i].name.clone());
        i = i + 1;
    }
    let mut traffic_names: Vec<String> = Vec::new();
    let mut i: usize = 0;
    while i < traffic.len()
        invariant
            i <= traffic@.len(),
            traffic_names@.len() == i,
            forall|j: int| 0 <= j < i ==> (#[trigger] traffic_names@[j])@ == traffic@[j].name@,
        decreases traffic@.len() - i,
    {
        traffic_names.push(traffic[i].name.clone());
        i = i + 1;
    }
    let mut interfaces: Vec<Interface> = Vec::new();
    let mut i: usize = 0;
    while i < addrs.len()
        invariant
            i <= addrs@.len(),
            interfaces@.len() == kept_entries(addrs@.take(i as int)).len(),
            forall|j: int|
                0 <= j < interfaces@.len() ==> reconciled_from(
                    #[trigger] interfaces@[j],
                    kept_entries(addrs@.take(i as int))[j],
                    traffic@,
                ),
        decreases addrs@.len() - i,
    {
        proof {
            assert(addrs@.take(i + 1).drop_last() =~= addrs@.take(i as int));
            assert(addrs@.take(i + 1).last() == addrs@[i as int]);
        }
        let entry = &addrs[i];
        if !is_loopback_name(entry.name.as_str()) {
            let counters = lookup_counters(entry.name.as_str(), &traffic);
            let mut usage = NetworkUsage::new();
            usage.update(counters.0, counters.1);
            let mut ipv4_addresses: Vec<String> = Vec::new();
            let mut ipv6_addresses: Vec<String> = Vec::new();
            if entry.is_ipv6 {
                ipv6_addresses.push(entry.address.clone());
            } else {
                ipv4_addresses.push(entry.address.clone());
            }
            let intf = Interface {
                name: entry.name.clone(),
                ipv4_addresses,
                ipv6_addresses,
                mac_address: None,
                status: true,
                speed: None,
                mtu: None,
                received_bytes: counters.0,
                transmitted_bytes: counters.1,
                usage,
            };
            proof {
                assert(reconciled_from(intf, addrs@[i as int], traffic@));
            }
            interfaces.push(intf);
        }
        i = i + 1;
    }
    proof {
        assert(addrs@.take(addrs@.len() as int) =~= addrs@);
    }
    let mut no_stats: Vec<String> = Vec::new();
    let mut i: usize = 0;
    while i < interfaces.len()
        invariant
            i <= interfaces@.len(),
            crate::text::views_of(no_stats@) == zero_stat_names(interfaces@.take(i as int)),
        decreases interfaces@.len() - i,
    {
        proof {
            assert(interfaces@.take(i + 1).drop_last() =~= interfaces@.take(i as int));
            assert(interfaces@.take(i + 1).last() == interfaces@[i as int]);
        }
        if interfaces[i].received_bytes == 0 && interfaces[i].transmitted_bytes == 0 {
            no_stats.push(interfaces[i].name.clone());
            proof {
                assert(crate::text::views_of(no_stats@) =~~= zero_stat_names(
                    interfaces@.take(i + 1),
                ));
            }
        }
        i = i + 1;
    }
    proof {
        assert(interfaces@.take(interfaces@.len() as int) =~= interfaces@);
    }
    let info = NetworkInfo {
        interfaces,
        hostname,
        public_ip,
        debug_info: DebugInfo {
            addr_source_names: addr_names,
            traffic_source_names: traffic_names,
            no_stats_names: no_stats,
            diag_output: None,
        },
        update_count: 0,
    };
    proof {
        lemma_kept_entries_no_loopback(addrs@);
        assert(info.wf());
    }
    info
}

/// Everything a periodic refresh promises of one interface record: the
/// identity fields are unchanged, the counters are re-matched against the
/// new traffic enumeration, and the rate tracker has taken exactly one
/// observation of those counters.
pub open spec fn refreshed_from(next: Interface, prev: Interface, ts: Seq<TrafficEntry>) -> bool {
    &&& next.name == prev.name
    &&& next.ipv4_addresses == prev.ipv4_addresses
    &&& next.ipv6_addresses == prev.ipv6_addresses
    &&& next.mac_address == prev.mac_address
    &&& next.status == prev.status
    &&& next.speed == prev.speed
    &&& next.mtu == prev.mtu
    &&& (next.received_bytes, next.transmitted_bytes) == matched_counters(prev.name@, ts)
    &&& next.usage.wf()
    &&& next.usage.warm
    &&& next.usage.last_rx == next.received_bytes
    &&& next.usage.last_tx == next.transmitted_bytes
    &&& next.usage.rx_history@ == crate::rate::shifted(
        prev.usage.rx_history@,
        prev.usage.next_sample(prev.usage.last_rx, next.received_bytes),
    )
    &&& next.usage.tx_history@ == crate::rate::shifted(
        prev.usage.tx_history@,
        prev.usage.next_sample(prev.usage.last_tx, next.transmitted_bytes),
    )
}

/// One periodic refresh: re-match every interface's counters against a
/// fresh traffic enumeration, feed them to its rate tracker, and count
/// the completed refresh. Identity fields, the hostname, the public IP
/// and the diagnostic collections are untouched.
pub fn update_network_info(info: &mut NetworkInfo, traffic: &Vec<TrafficEntry>)
    requires
        old(info).wf(),
        old(info).update_count < u64::MAX,
    ensures
        final(info).wf(),
        final(info).hostname == old(info).hostname,
        final(info).public_ip == old(info).public_ip,
        final(info).debug_info == old(info).debug_info,
        final(info).update_count == old(info).update_count + 1,
        final(info).interfaces@.len() == old(info).interfaces@.len(),
        forall|i: int|
            0 <= i < final(info).interfaces@.len() ==> refreshed_from(
                #[trigger] final(info).interfaces@[i],
                old(info).interfaces@[i],
                traffic@,
            ),
{
    let ghost old_ifs = info.interfaces@;
    let mut updated: Vec<Interface> = Vec::new();
    while info.interfaces.len() > 0
        invariant
            info.hostname == old(info).hostname,
            info.public_ip == old(info).public_ip,
            info.debug_info == old(info).debug_info,
            info.update_count == old(info).update_count,
            old(info).update_count < u64::MAX,
            updated@.len() + info.interfaces@.len() == old_ifs.len(),
            info.interfaces@ =~= old_ifs.skip(updated@.len() as int),
            forall|i: int|
                0 <= i < old_ifs.len() ==> (#[trigger] old_ifs[i]).usage.wf(),
            forall|i: int|
                0 <= i < updated@.len() ==> refreshed_from(
                    #[trigger] updated@[i],
                    old_ifs[i],
                    traffic@,
                ),
        decreases info.interfaces@.len(),
    {
        let ghost done = updated@.len() as int;
        let mut intf = info.interfaces.remove(0);
        proof {
            assert(intf == old_ifs[done]);
            assert(info.interfaces@ =~= old_ifs.skip(done + 1));
        }
        let counters = lookup_counters(intf.name.as_str(), traffic);
        intf.received_bytes = counters.0;
        intf.transmitted_bytes = counters.1;
        intf.usage.update(counters.0, counters.1);
        proof {
            assert(refreshed_from(intf, old_ifs[done], traffic@));
        }
        updated.push(intf);
    }
    info.interfaces = updated;
    info.update_count = info.update_count + 1;
}

/// An address-source name that no traffic entry matches under any of the
/// three rules reconciles to zero counters in both directions.
pub proof fn lemma_unmatched_counters_zero(name: Seq<char>, ts: Seq<TrafficEntry>)
    requires
        forall|j: int|
            0 <= j < ts.len() ==> !rule_matches(MatchRule::Exact, name, (#[trigger] ts[j]).name@),
        forall|j: int|
            0 <= j < ts.len() ==> !rule_matches(
                MatchRule::CaseInsensitive,
                name,
                (#[trigger] ts[j]).name@,
            ),
        forall|j: int|
            0 <= j < ts.len() ==> !rule_matches(MatchRule::Suffix, name, (#[trigger] ts[j]).name@),
    ensures
        matched_counters(name, ts) == (0u64, 0u64),
{
    lemma_find_by_first(MatchRule::Exact, name, ts, ts.len() as int);
    lemma_find_by_first(MatchRule::CaseInsensitive, name, ts, ts.len() as int);
    lemma_find_by_first(MatchRule::Suffix, name, ts, ts.len() as int);
}

/// When no traffic entry equals `name` byte for byte but some entry
/// differs from it only in ASCII case, reconciliation applies the
/// counters of the first such entry.
pub proof fn lemma_case_insensitive_match(name: Seq<char>, ts: Seq<TrafficEntry>, i: int)
    requires
        forall|j: int|
            0 <= j < ts.len() ==> !rule_matches(MatchRule::Exact, name, (#[trigger] ts[j]).name@),
        0 <= i < ts.len(),
        str_eq_ci(ts[i].name@, name),
        forall|j: int| 0 <= j < i ==> !str_eq_ci((#[trigger] ts[j]).name@, name),
    ensures
        matched_counters(name, ts) == (ts[i].received, ts[i].transmitted),
{
    lemma_find_by_first(MatchRule::Exact, name, ts, ts.len() as int);
    lemma_find_by_first(MatchRule::CaseInsensitive, name, ts, i);
}

/// When neither exact nor case-insensitive matching finds a traffic
/// entry for `name`, but some entry agrees with it on the non-empty part
/// after the leading alphabetic prefix, reconciliation applies the
/// counters of the first such entry.
pub proof fn lemma_suffix_match_applies(name: Seq<char>, ts: Seq<TrafficEntry>, i: int)
    requires
        forall|j: int|
            0 <= j < ts.len() ==> !rule_matches(MatchRule::Exact, name, (#[trigger] ts[j]).name@),
        forall|j: int|
            0 <= j < ts.len() ==> !rule_matches(
                MatchRule::CaseInsensitive,
                name,
                (#[trigger] ts[j]).name@,
            ),
        0 <= i < ts.len(),
        suffix_match(name, ts[i].name@),
        forall|j: int| 0 <= j < i ==> !suffix_match(name, (#[trigger] ts[j]).name@),
    ensures
        matched_counters(name, ts) == (ts[i].received, ts[i].transmitted),
{
    lemma_find_by_first(MatchRule::Exact, name, ts, ts.len() as int);
    lemma_find_by_first(MatchRule::CaseInsensitive, name, ts, ts.len() as int);
    lemma_find_by_first(MatchRule::Suffix, name, ts, i);
}

} // verus!
