//! Best-effort enrichment from an external diagnostic command: its
//! line-oriented tabular output is parsed heuristically (first
//! whitespace-separated field the interface name, fixed-position numeric
//! fields the counters, scaled by a fixed kibibyte multiplier) and
//! applied to the interfaces that claim the parsed name. Parse failures
//! carry no update; they are never an error.

use vstd::prelude::*;
use crate::model::{Interface, NetworkInfo};
use crate::text::{
    all_digits, digits_val, has_prefix, is_ascii_ws, parse_u64, spec_is_ascii_ws, str_eq,
    str_starts_with, views_of,
};

verus! {

/// Length of the run of non-whitespace characters at the start of `s`.
pub open spec fn token_len(s: Seq<char>) -> nat
    decreases s.len(),
{
    if s.len() > 0 && !spec_is_ascii_ws(s[0]) {
        (1 + token_len(s.drop_first())) as nat
    } else {
        0
    }
}

/// The length of the leading token never exceeds the string.
pub proof fn lemma_token_len_le(s: Seq<char>)
    ensures
        token_len(s) <= s.len(),
    decreases s.len(),
{
    if s.len() > 0 && !spec_is_ascii_ws(s[0]) {
        lemma_token_len_le(s.drop_first());
    }
}

/// The leading token ends at the unique boundary `i`: everything before
/// `i` is non-whitespace and position `i` (if any) is whitespace.
pub proof fn lemma_token_len_unique(s: Seq<char>, i: int)
    requires
        0 <= i <= s.len(),
        forall|j: int| 0 <= j < i ==> !spec_is_ascii_ws(s[j]),
        i < s.len() ==> spec_is_ascii_ws(s[i]),
    ensures
        token_len(s) == i,
    decreases s.len(),
{
    if s.len() > 0 && !spec_is_ascii_ws(s[0]) {
        assert(i > 0);
        assert(forall|j: int| 0 <= j < i - 1 ==> s.drop_first()[j] == s[j + 1]);
        lemma_token_len_unique(s.drop_first(), i - 1);
    }
}

/// The whitespace-separated tokens of `s`, in order.
pub open spec fn tokens_of(s: Seq<char>) -> Seq<Seq<char>>
    decreases s.len(),
    via tokens_of_decreases
{
    if s.len() == 0 {
        Seq::empty()
    } else if spec_is_ascii_ws(s[0]) {
        tokens_of(s.drop_first())
    } else {
        seq![s.take(token_len(s) as int)] + tokens_of(s.skip(token_len(s) as int))
    }
}

#[via_fn]
proof fn tokens_of_decreases(s: Seq<char>) {
    lemma_token_len_le(s);
}

/// Length of the run before the first line break in `s`.
pub open spec fn line_len(s: Seq<char>) -> nat
    decreases s.len(),
{
    if s.len() > 0 && s[0] != '\n' {
        (1 + line_len(s.drop_first())) as nat
    } else {
        0
    }
}

/// The length of the leading line never exceeds the string.
pub proof fn lemma_line_len_le(s: Seq<char>)
    ensures
        line_len(s) <= s.len(),
    decreases s.len(),
{
    if s.len() > 0 && s[0] != '\n' {
        lemma_line_len_le(s.drop_first());
    }
}

/// The leading line ends at the unique boundary `i`: no line break
/// before `i`, and position `i` (if any) is one.
pub proof fn lemma_line_len_unique(s: Seq<char>, i: int)
    requires
        0 <= i <= s.len(),
        forall|j: int| 0 <= j < i ==> s[j] != '\n',
        i < s.len() ==> s[i] == '\n',
    ensures
        line_len(s) == i,
    decreases s.len(),
{
    if s.len() > 0 && s[0] != '\n' {
        assert(i > 0);
        assert(forall|j: int| 0 <= j < i - 1 ==> s.drop_first()[j] == s[j + 1]);
        lemma_line_len_unique(s.drop_first(), i - 1);
    }
}

/// The lines of `s`: the runs between line breaks, a final run without
/// one included, none for the empty string.
pub open spec fn lines_of(s: Seq<char>) -> Seq<Seq<char>>
    decreases s.len(),
    via lines_of_decreases
{
    if s.len() == 0 {
        Seq::empty()
    } else {
        let k = line_len(s) as int;
        if k == s.len() {
            seq![s]
        } else {
            seq![s.take(k)] + lines_of(s.skip(k + 1))
        }
    }
}

#[via_fn]
proof fn lines_of_decreases(s: Seq<char>) {
    lemma_line_len_le(s);
}

/// Split `s` at ASCII whitespace into its tokens.
pub fn split_tokens(s: &str) -> (r: Vec<String>)
    ensures
        views_of(r@) == tokens_of(s@),
{
    let n = s.unicode_len();
    let mut r: Vec<String> = Vec::new();
    let mut pos: usize = 0;
    proof {
        assert(s@.skip(0) =~= s@);
        assert(views_of(r@) + tokens_of(s@) =~~= tokens_of(s@));
    }
    while pos < n
        invariant
            n == s@.len(),
            pos <= n,
            tokens_of(s@) == views_of(r@) + tokens_of(s@.skip(pos as int)),
        decreases n - pos,
    {
        if is_ascii_ws(s.get_char(pos)) {
            proof {
                assert(s@.skip(pos as int)[0] == s@[pos as int]);
                assert(s@.skip(pos as int).drop_first() =~= s@.skip(pos + 1));
            }
            pos = pos + 1;
        } else {
            let mut e: usize = pos + 1;
            loop
                invariant
                    n == s@.len(),
                    pos < e <= n,
                    forall|j: int| pos <= j < e ==> !spec_is_ascii_ws(s@[j]),
                ensures
                    pos < e <= n,
                    forall|j: int| pos <= j < e ==> !spec_is_ascii_ws(s@[j]),
                    e < n ==> spec_is_ascii_ws(s@[e as int]),
                decreases n - e,
            {
                if e >= n {
                    break;
                }
                if is_ascii_ws(s.get_char(e)) {
                    break;
                }
                e = e + 1;
            }
            let tok = s.substring_char(pos, e).to_owned();
            proof {
                let sk = s@.skip(pos as int);
                assert(forall|j: int| 0 <= j < sk.len() ==> #[trigger] sk[j] == s@[j + pos]);
                lemma_token_len_unique(sk, e - pos);
                assert(sk.take(e - pos) =~= s@.subrange(pos as int, e as int));
                assert(sk.skip(e - pos) =~= s@.skip(e as int));
                assert(tokens_of(sk) == seq![s@.subrange(pos as int, e as int)] + tokens_of(
                    s@.skip(e as int),
                ));
                assert(views_of(r@.push(tok)) =~~= views_of(r@) + seq![tok@]);
                assert(views_of(r@) + tokens_of(sk) =~~= (views_of(r@) + seq![tok@]) + tokens_of(
                    s@.skip(e as int),
                ));
            }
            r.push(tok);
            pos = e;
        }
    }
    proof {
        assert(s@.skip(n as int) =~= Seq::<char>::empty());
        assert(views_of(r@) + tokens_of(Seq::<char>::empty()) =~~= views_of(r@));
    }
    r
}

/// Split `s` at line breaks into its lines.
pub fn split_lines(s: &str) -> (r: Vec<String>)
    ensures
        views_of(r@) == lines_of(s@),
{
    let n = s.unicode_len();
    let mut r: Vec<String> = Vec::new();
    let mut pos: usize = 0;
    proof {
        assert(s@.skip(0) =~= s@);
        assert(views_of(r@) + lines_of(s@) =~~= lines_of(s@));
    }
    while pos < n
        invariant
            n == s@.len(),
            pos <= n,
            lines_of(s@) == views_of(r@) + lines_of(s@.skip(pos as int)),
        decreases n - pos,
    {
        let mut e: usize = pos;
        loop
            invariant
                n == s@.len(),
                pos <= e <= n,
                forall|j: int| pos <= j < e ==> s@[j] != '\n',
            ensures
                pos <= e <= n,
                forall|j: int| pos <= j < e ==> s@[j] != '\n',
                e < n ==> s@[e as int] == '\n',
            decreases n - e,
        {
            if e >= n {
                break;
            }
            if s.get_char(e) == '\n' {
                break;
            }
            e = e + 1;
        }
        let ln = s.substring_char(pos, e).to_owned();
        proof {
            let sk = s@.skip(pos as int);
            assert(forall|j: int| 0 <= j < sk.len() ==> #[trigger] sk[j] == s@[j + pos]);
            lemma_line_len_unique(sk, e - pos);
            assert(sk.take(e - pos) =~= s@.subrange(pos as int, e as int));
            assert(views_of(r@.push(ln)) =~~= views_of(r@) + seq![ln@]);
            if e < n {
                assert(sk.skip(e - pos + 1) =~= s@.skip(e + 1));
                assert(lines_of(sk) == seq![s@.subrange(pos as int, e as int)] + lines_of(
                    s@.skip(e + 1),
                ));
                assert(views_of(r@) + lines_of(sk) =~~= (views_of(r@) + seq![ln@]) + lines_of(
                    s@.skip(e + 1),
                ));
            } else {
                assert(sk =~= s@.subrange(pos as int, e as int));
                assert(lines_of(sk) == seq![sk]);
                assert(views_of(r@) + lines_of(sk) =~~= (views_of(r@) + seq![ln@])
                    + lines_of(s@.skip(n as int)));
                assert(s@.skip(n as int) =~= Seq::<char>::empty());
            }
        }
        r.push(ln);
        if e < n {
            pos = e + 1;
        } else {
            pos = n;
        }
    }
    proof {
        assert(s@.skip(n as int) =~= Seq::<char>::empty());
        assert(views_of(r@) + lines_of(Seq::<char>::empty()) =~~= views_of(r@));
    }
    r
}

/// The receive-counter update a parsed line carries: its fifth field,
/// scaled by the kibibyte multiplier, when the field is numeric and the
/// scaled value representable; nothing otherwise.
pub open spec fn line_rx(toks: Seq<Seq<char>>) -> Option<u64> {
    if toks.len() >= 5 && toks[4].len() > 0 && all_digits(toks[4]) && digits_val(toks[4]) * 1024
        <= u64::MAX {
        Some((digits_val(toks[4]) * 1024) as u64)
    } else {
        None
    }
}

/// The transmit-counter update a parsed line carries: its eighth field,
/// under the same conditions as [`line_rx`].
pub open spec fn line_tx(toks: Seq<Seq<char>>) -> Option<u64> {
    if toks.len() >= 8 && toks[7].len() > 0 && all_digits(toks[7]) && digits_val(toks[7]) * 1024
        <= u64::MAX {
        Some((digits_val(toks[7]) * 1024) as u64)
    } else {
        None
    }
}

/// An interface claims a parsed diagnostic name when its own name equals
/// it or is a prefix of it.
pub open spec fn name_claims(ifname: Seq<char>, parsed: Seq<char>) -> bool {
    ifname == parsed || has_prefix(parsed, ifname)
}

/// Index of the first interface claiming `parsed`.
pub open spec fn claimant(ifs: Seq<Interface>, parsed: Seq<char>) -> Option<int>
    decreases ifs.len(),
{
    if ifs.len() == 0 {
        None
    } else if name_claims(ifs[0].name@, parsed) {
        Some(0int)
    } else {
        match claimant(ifs.drop_first(), parsed) {
            Some(j) => Some(j + 1),
            None => None,
        }
    }
}

proof fn lemma_claimant_at(ifs: Seq<Interface>, parsed: Seq<char>, i: int)
    requires
        0 <= i <= ifs.len(),
        forall|j: int| 0 <= j < i ==> !name_claims((#[trigger] ifs[j]).name@, parsed),
        i < ifs.len() ==> name_claims(ifs[i].name@, parsed),
    ensures
        claimant(ifs, parsed) == if i == ifs.len() {
            None
        } else {
            Some(i)
        },
    decreases ifs.len(),
{
    if ifs.len() > 0 {
        if name_claims(ifs[0].name@, parsed) {
            assert(i == 0);
        } else {
            assert(forall|j: int|
                0 <= j < ifs.len() - 1 ==> #[trigger] ifs.drop_first()[j] == ifs[j + 1]);
            lemma_claimant_at(ifs.drop_first(), parsed, i - 1);
        }
    }
}

proof fn lemma_claimant_in_range(ifs: Seq<Interface>, parsed: Seq<char>)
    ensures
        match claimant(ifs, parsed) {
            Some(i) => 0 <= i < ifs.len(),
            None => true,
        },
    decreases ifs.len(),
{
    if ifs.len() > 0 && !name_claims(ifs[0].name@, parsed) {
        lemma_claimant_in_range(ifs.drop_first(), parsed);
    }
}

proof fn lemma_apply_line_wf(ifs: Seq<Interface>, line: Seq<char>)
    requires
        forall|i: int| 0 <= i < ifs.len() ==> (#[trigger] ifs[i]).usage.wf(),
    ensures
        apply_line(ifs, line).len() == ifs.len(),
        forall|i: int|
            0 <= i < apply_line(ifs, line).len() ==> (#[trigger] apply_line(
                ifs,
                line,
            )[i]).usage.wf(),
{
    let toks = tokens_of(line);
    if toks.len() >= 5 {
        lemma_claimant_in_range(ifs, toks[0]);
    }
}

proof fn lemma_apply_lines_wf(ifs: Seq<Interface>, ls: Seq<Seq<char>>)
    requires
        forall|i: int| 0 <= i < ifs.len() ==> (#[trigger] ifs[i]).usage.wf(),
    ensures
        apply_lines(ifs, ls).len() == ifs.len(),
        forall|i: int|
            0 <= i < apply_lines(ifs, ls).len() ==> (#[trigger] apply_lines(
                ifs,
                ls,
            )[i]).usage.wf(),
    decreases ls.len(),
{
    if ls.len() > 0 {
        lemma_apply_line_wf(ifs, ls[0]);
        lemma_apply_lines_wf(apply_line(ifs, ls[0]), ls.drop_first());
    }
}

/// `intf` with the counter updates a line carries applied; every other
/// field, the rate tracker included, is untouched.
pub open spec fn with_diag_counters(intf: Interface, rx: Option<u64>, tx: Option<u64>) -> Interface {
    Interface {
        name: intf.name,
        ipv4_addresses: intf.ipv4_addresses,
        ipv6_addresses: intf.ipv6_addresses,
        mac_address: intf.mac_address,
        status: intf.status,
        speed: intf.speed,
        mtu: intf.mtu,
        received_bytes: match rx {
            Some(v) => v,
            None => intf.received_bytes,
        },
        transmitted_bytes: match tx {
            Some(v) => v,
            None => intf.transmitted_bytes,
        },
        usage: intf.usage,
    }
}

/// One diagnostic line applied: with at least five fields and some
/// interface claiming its first field, the first such interface takes
/// the line's counter updates; anything else leaves the list unchanged.
pub open spec fn apply_line(ifs: Seq<Interface>, line: Seq<char>) -> Seq<Interface> {
    let toks = tokens_of(line);
    if toks.len() < 5 {
        ifs
    } else {
        match claimant(ifs, toks[0]) {
            Some(i) => ifs.update(i, with_diag_counters(ifs[i], line_rx(toks), line_tx(toks))),
            None => ifs,
        }
    }
}

/// All diagnostic lines applied in order.
pub open spec fn apply_lines(ifs: Seq<Interface>, ls: Seq<Seq<char>>) -> Seq<Interface>
    decreases ls.len(),
{
    if ls.len() == 0 {
        ifs
    } else {
        apply_lines(apply_line(ifs, ls[0]), ls.drop_first())
    }
}

fn parse_scaled(t: &String) -> (r: Option<u64>)
    ensures
        r == if t@.len() > 0 && all_digits(t@) && digits_val(t@) * 1024 <= u64::MAX {
            Some((digits_val(t@) * 1024) as u64)
        } else {
            None::<u64>
        },
{
    match parse_u64(t.as_str()) {
        Some(v) => {
            proof {
                assert(u64::MAX / 1024 * 1024 + u64::MAX % 1024 == u64::MAX);
            }
            if v <= u64::MAX / 1024 {
                Some(v * 1024)
            } else {
                None
            }
        },
        None => None,
    }
}

fn apply_line_exec(interfaces: &mut Vec<Interface>, line: &str)
    ensures
        final(interfaces)@ == apply_line(old(interfaces)@, line@),
{
    let toks = split_tokens(line);
    proof {
        assert(views_of(toks@) == tokens_of(line@));
        assert(toks@.len() == tokens_of(line@).len());
    }
    if toks.len() < 5 {
        return;
    }
    let ghost tv = tokens_of(line@);
    proof {
        assert(toks@[0]@ == tv[0]);
        assert(toks@[4]@ == tv[4]);
    }
    let mut j: usize = 0;
    loop
        invariant
            j <= interfaces@.len(),
            toks@.len() >= 5,
            toks@[0]@ == tv[0],
            forall|j2: int|
                0 <= j2 < j ==> !name_claims((#[trigger] interfaces@[j2]).name@, tv[0]),
        ensures
            j <= interfaces@.len(),
            forall|j2: int|
                0 <= j2 < j ==> !name_claims((#[trigger] interfaces@[j2]).name@, tv[0]),
            j < interfaces@.len() ==> name_claims(interfaces@[j as int].name@, tv[0]),
        decreases interfaces@.len() - j,
    {
        if j >= interfaces.len() {
            break;
        }
        let claims = str_eq(interfaces[j].name.as_str(), toks[0].as_str()) || str_starts_with(
            toks[0].as_str(),
            interfaces[j].name.as_str(),
        );
        if claims {
            break;
        }
        j = j + 1;
    }
    if j >= interfaces.len() {
        proof {
            lemma_claimant_at(interfaces@, tv[0], interfaces@.len() as int);
        }
        return;
    }
    proof {
        lemma_claimant_at(interfaces@, tv[0], j as int);
    }
    let rx = parse_scaled(&toks[4]);
    let tx: Option<u64> = if toks.len() >= 8 {
        proof {
            assert(toks@[7]@ == tv[7]);
        }
        parse_scaled(&toks[7])
    } else {
        None
    };
    proof {
        assert(rx == line_rx(tv));
        assert(tx == line_tx(tv));
    }
    let mut intf = interfaces.remove(j);
    match rx {
        Some(v) => {
            intf.received_bytes = v;
        },
        None => {},
    }
    match tx {
        Some(v) => {
            intf.transmitted_bytes = v;
        },
        None => {},
    }
    interfaces.insert(j, intf);
    proof {
        assert(interfaces@ =~= old(interfaces)@.update(
            j as int,
            with_diag_counters(old(interfaces)@[j as int], line_rx(tv), line_tx(tv)),
        ));
    }
}

/// Apply the diagnostic command's whole output to the snapshot, line by
/// line in order, and record the raw text for display. Nothing else of
/// the snapshot changes, and nothing here fails: lines that parse to no
/// update simply carry none.
pub fn apply_diag_output(info: &mut NetworkInfo, text: &str)
    ensures
        final(info).interfaces@ == apply_lines(old(info).interfaces@, lines_of(text@)),
        old(info).wf() ==> final(info).wf(),
        final(info).hostname == old(info).hostname,
        final(info).public_ip == old(info).public_ip,
        final(info).update_count == old(info).update_count,
        final(info).debug_info.addr_source_names == old(info).debug_info.addr_source_names,
        final(info).debug_info.traffic_source_names == old(info).debug_info.traffic_source_names,
        final(info).debug_info.no_stats_names == old(info).debug_info.no_stats_names,
        match final(info).debug_info.diag_output {
            Some(t) => t@ == text@,
            None => false,
        },
{
    info.debug_info.diag_output = Some(text.to_owned());
    let lines = split_lines(text);
    let ghost lv = lines_of(text@);
    let mut li: usize = 0;
    proof {
        assert(lv.skip(0) =~~= lv);
    }
    while li < lines.len()
        invariant
            views_of(lines@) == lv,
            lines@.len() == lv.len(),
            li <= lines@.len(),
            apply_lines(old(info).interfaces@, lv) == apply_lines(
                info.interfaces@,
                lv.skip(li as int),
            ),
            info.hostname == old(info).hostname,
            info.public_ip == old(info).public_ip,
            info.update_count == old(info).update_count,
            info.debug_info.addr_source_names == old(info).debug_info.addr_source_names,
            info.debug_info.traffic_source_names == old(info).debug_info.traffic_source_names,
            info.debug_info.no_stats_names == old(info).debug_info.no_stats_names,
            match info.debug_info.diag_output {
                Some(t) => t@ == text@,
                None => false,
            },
        decreases lines@.len() - li,
    {
        proof {
            assert(lines@[li as int]@ == lv[li as int]);
            assert(lv.skip(li as int)[0] == lv[li as int]);
            assert(lv.skip(li as int).drop_first() =~= lv.skip(li + 1));
        }
        apply_line_exec(&mut info.interfaces, lines[li].as_str());
        li = li + 1;
    }
    proof {
        assert(lv.skip(lv.len() as int) =~= Seq::<Seq<char>>::empty());
        if old(info).wf() {
            lemma_apply_lines_wf(old(info).interfaces@, lv);
        }
    }
}

} // verus!
