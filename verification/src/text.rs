//! Character and string primitives the rest of the crate builds on:
//! ASCII case folding, prefix tests, substring search, whitespace
//! trimming, decimal parsing and decimal rendering.

use vstd::prelude::*;

verus! {

/// The code point of `c`, with an ASCII capital letter folded to its
/// lower-case form; every other character is left as it is.
pub open spec fn fold_case(c: char) -> u32 {
    if 65 <= c as u32 && c as u32 <= 90 {
        (c as u32 + 32) as u32
    } else {
        c as u32
    }
}

/// Two characters are equal up to ASCII case.
pub open spec fn char_eq_ci(a: char, b: char) -> bool {
    fold_case(a) == fold_case(b)
}

/// Two strings are equal up to ASCII case.
pub open spec fn str_eq_ci(a: Seq<char>, b: Seq<char>) -> bool {
    a.len() == b.len() && (forall|i: int| 0 <= i < a.len() ==> char_eq_ci(a[i], b[i]))
}

/// `p` is a prefix of `s`.
pub open spec fn has_prefix(s: Seq<char>, p: Seq<char>) -> bool {
    p.len() <= s.len() && (forall|i: int| 0 <= i < p.len() ==> s[i] == p[i])
}

/// Executable form of [`fold_case`].
pub fn fold_case_exec(c: char) -> (r: u32)
    ensures
        r == fold_case(c),
{
    let u = c as u32;
    if 65 <= u && u <= 90 {
        u + 32
    } else {
        u
    }
}

/// Character-for-character string equality.
pub fn str_eq(a: &str, b: &str) -> (r: bool)
    ensures
        r == (a@ == b@),
{
    let alen = a.unicode_len();
    let blen = b.unicode_len();
    if alen != blen {
        return false;
    }
    let mut i: usize = 0;
    while i < alen
        invariant
            alen == a@.len(),
            blen == b@.len(),
            alen == blen,
            i <= alen,
            forall|j: int| 0 <= j < i ==> a@[j] == b@[j],
        decreases alen - i,
    {
        if a.get_char(i) != b.get_char(i) {
            return false;
        }
        i = i + 1;
    }
    proof {
        assert(a@ =~= b@);
    }
    true
}

/// String equality up to ASCII case.
pub fn eq_ignore_ascii_case(a: &str, b: &str) -> (r: bool)
    ensures
        r == str_eq_ci(a@, b@),
{
    let alen = a.unicode_len();
    let blen = b.unicode_len();
    if alen != blen {
        return false;
    }
    let mut i: usize = 0;
    while i < alen
        invariant
            alen == a@.len(),
            blen == b@.len(),
            alen == blen,
            i <= alen,
            forall|j: int| 0 <= j < i ==> char_eq_ci(a@[j], b@[j]),
        decreases alen - i,
    {
        if fold_case_exec(a.get_char(i)) != fold_case_exec(b.get_char(i)) {
            return false;
        }
        i = i + 1;
    }
    true
}

/// Does `s` start with `p`?
pub fn str_starts_with(s: &str, p: &str) -> (r: bool)
    ensures
        r == has_prefix(s@, p@),
{
    let slen = s.unicode_len();
    let plen = p.unicode_len();
    if plen > slen {
        return false;
    }
    let mut i: usize = 0;
    while i < plen
        invariant
            slen == s@.len(),
            plen == p@.len(),
            plen <= slen,
            i <= plen,
            forall|j: int| 0 <= j < i ==> s@[j] == p@[j],
        decreases plen - i,
    {
        if s.get_char(i) != p.get_char(i) {
            return false;
        }
        i = i + 1;
    }
    true
}

/// `c` is an ASCII letter.
pub open spec fn spec_is_ascii_alpha(c: char) -> bool {
    (65 <= c as u32 && c as u32 <= 90) || (97 <= c as u32 && c as u32 <= 122)
}

/// Length of the longest run of ASCII letters at the start of `s`.
pub open spec fn alpha_prefix_len(s: Seq<char>) -> nat
    decreases s.len(),
{
    if s.len() > 0 && spec_is_ascii_alpha(s[0]) {
        (1 + alpha_prefix_len(s.drop_first())) as nat
    } else {
        0
    }
}

/// What remains of a name once its leading alphabetic run is removed.
pub open spec fn name_suffix(s: Seq<char>) -> Seq<char> {
    s.skip(alpha_prefix_len(s) as int)
}

/// Two names match by the prefix-stripping rule: the parts after their
/// leading alphabetic runs are non-empty and identical.
pub open spec fn suffix_match(a: Seq<char>, b: Seq<char>) -> bool {
    name_suffix(a).len() > 0 && name_suffix(a) == name_suffix(b)
}

/// The alphabetic prefix is the unique boundary `i` such that everything
/// before `i` is a letter and position `i` (if any) is not.
pub proof fn lemma_alpha_prefix_unique(s: Seq<char>, i: int)
    requires
        0 <= i <= s.len(),
        forall|j: int| 0 <= j < i ==> spec_is_ascii_alpha(s[j]),
        i < s.len() ==> !spec_is_ascii_alpha(s[i]),
    ensures
        alpha_prefix_len(s) == i,
    decreases s.len(),
{
    if s.len() > 0 && spec_is_ascii_alpha(s[0]) {
        assert(i > 0);
        assert(forall|j: int| 0 <= j < i - 1 ==> s.drop_first()[j] == s[j + 1]);
        lemma_alpha_prefix_unique(s.drop_first(), i - 1);
    }
}

/// Executable form of [`spec_is_ascii_alpha`].
pub fn is_ascii_alpha(c: char) -> (r: bool)
    ensures
        r == spec_is_ascii_alpha(c),
{
    let u = c as u32;
    (65 <= u && u <= 90) || (97 <= u && u <= 122)
}

/// Index where the leading alphabetic run of `s` ends.
pub fn alpha_prefix_end(s: &str) -> (r: usize)
    ensures
        r == alpha_prefix_len(s@),
        r <= s@.len(),
{
    let n = s.unicode_len();
    let mut i: usize = 0;
    loop
        invariant
            n == s@.len(),
            i <= n,
            forall|j: int| 0 <= j < i ==> spec_is_ascii_alpha(s@[j]),
        ensures
            i <= n,
            forall|j: int| 0 <= j < i ==> spec_is_ascii_alpha(s@[j]),
            i < n ==> !spec_is_ascii_alpha(s@[i as int]),
        decreases n - i,
    {
        if i >= n {
            break;
        }
        if !is_ascii_alpha(s.get_char(i)) {
            break;
        }
        i = i + 1;
    }
    proof {
        lemma_alpha_prefix_unique(s@, i as int);
    }
    i
}

/// Do `a` and `b` match by the prefix-stripping rule?
pub fn names_suffix_match(a: &str, b: &str) -> (r: bool)
    ensures
        r == suffix_match(a@, b@),
{
    let alen = a.unicode_len();
    let blen = b.unicode_len();
    let ia = alpha_prefix_end(a);
    let ib = alpha_prefix_end(b);
    let sa = alen - ia;
    let sb = blen - ib;
    if sa == 0 {
        return false;
    }
    if sa != sb {
        proof {
            assert(name_suffix(a@).len() != name_suffix(b@).len());
        }
        return false;
    }
    let mut j: usize = 0;
    while j < sa
        invariant
            alen == a@.len(),
            blen == b@.len(),
            ia == alpha_prefix_len(a@),
            ib == alpha_prefix_len(b@),
            ia <= alen,
            ib <= blen,
            sa == alen - ia,
            sb == blen - ib,
            sa == sb,
            j <= sa,
            forall|k: int| 0 <= k < j ==> #[trigger] a@[ia + k] == b@[ib + k],
        decreases sa - j,
    {
        if a.get_char(ia + j) != b.get_char(ib + j) {
            proof {
                assert(name_suffix(a@)[j as int] == a@[ia + j]);
                assert(name_suffix(b@)[j as int] == b@[ib + j]);
            }
            return false;
        }
        j = j + 1;
    }
    proof {
        assert forall|i: int| 0 <= i < sa implies name_suffix(a@)[i] == name_suffix(b@)[i] by {
            assert(a@[ia + i] == b@[ib + i]);
        }
        assert(name_suffix(a@) =~= name_suffix(b@));
    }
    true
}

/// `pat` occurs in `s` at offset `k`, up to ASCII case.
pub open spec fn contains_ci_at(s: Seq<char>, pat: Seq<char>, k: int) -> bool {
    0 <= k && k + pat.len() <= s.len() && str_eq_ci(s.subrange(k, k + pat.len() as int), pat)
}

/// `pat` occurs somewhere in `s`, up to ASCII case.
pub open spec fn contains_ci(s: Seq<char>, pat: Seq<char>) -> bool {
    exists|k: int| contains_ci_at(s, pat, k)
}

fn matches_ci_at(s: &str, pat: &str, k: usize) -> (r: bool)
    requires
        k + pat@.len() <= s@.len(),
    ensures
        r == contains_ci_at(s@, pat@, k as int),
{
    let plen = pat.unicode_len();
    let slen = s.unicode_len();
    let mut j: usize = 0;
    while j < plen
        invariant
            plen == pat@.len(),
            slen == s@.len(),
            k + plen <= s@.len(),
            j <= plen,
            forall|i: int| 0 <= i < j ==> char_eq_ci(s@[k + i], pat@[i]),
        decreases plen - j,
    {
        if fold_case_exec(s.get_char(k + j)) != fold_case_exec(pat.get_char(j)) {
            proof {
                let sub = s@.subrange(k as int, k + plen);
                assert(sub[j as int] == s@[k + j]);
                assert(!char_eq_ci(sub[j as int], pat@[j as int]));
            }
            return false;
        }
        j = j + 1;
    }
    proof {
        let sub = s@.subrange(k as int, k + plen);
        assert(forall|i: int| 0 <= i < plen ==> sub[i] == s@[k + i]);
        assert(str_eq_ci(sub, pat@));
    }
    true
}

/// Does `s` contain `pat`, compared up to ASCII case?
pub fn contains_ignore_ascii_case(s: &str, pat: &str) -> (r: bool)
    ensures
        r == contains_ci(s@, pat@),
{
    let slen = s.unicode_len();
    let plen = pat.unicode_len();
    if plen > slen {
        proof {
            assert(forall|k: int| !contains_ci_at(s@, pat@, k));
        }
        return false;
    }
    if plen == 0 {
        proof {
            assert(str_eq_ci(s@.subrange(0, 0), pat@));
            assert(contains_ci_at(s@, pat@, 0));
        }
        return true;
    }
    let mut k: usize = 0;
    while k <= slen - plen
        invariant
            slen == s@.len(),
            plen == pat@.len(),
            0 < plen <= slen,
            k <= slen - plen + 1,
            forall|k2: int| 0 <= k2 < k ==> !contains_ci_at(s@, pat@, k2),
        decreases slen - k,
    {
        if matches_ci_at(s, pat, k) {
            proof {
                assert(contains_ci_at(s@, pat@, k as int));
            }
            return true;
        }
        k = k + 1;
    }
    proof {
        assert(forall|k2: int| k2 >= k ==> !contains_ci_at(s@, pat@, k2));
        assert(forall|k2: int| !contains_ci_at(s@, pat@, k2));
    }
    false
}

/// `c` is an ASCII whitespace character.
pub open spec fn spec_is_ascii_ws(c: char) -> bool {
    c == ' ' || c == '\t' || c == '\n' || c == '\r'
}

/// Length of the whitespace run at the start of `s`.
pub open spec fn ws_prefix_len(s: Seq<char>) -> nat
    decreases s.len(),
{
    if s.len() > 0 && spec_is_ascii_ws(s[0]) {
        (1 + ws_prefix_len(s.drop_first())) as nat
    } else {
        0
    }
}

/// Length of the whitespace run at the end of `s`.
pub open spec fn ws_suffix_len(s: Seq<char>) -> nat
    decreases s.len(),
{
    if s.len() > 0 && spec_is_ascii_ws(s.last()) {
        (1 + ws_suffix_len(s.drop_last())) as nat
    } else {
        0
    }
}

/// `s` with leading and trailing ASCII whitespace removed.
pub open spec fn trimmed(s: Seq<char>) -> Seq<char> {
    let a = ws_prefix_len(s) as int;
    let b0 = s.len() - ws_suffix_len(s);
    let b = if b0 > a { b0 } else { a };
    s.subrange(a, b)
}

proof fn lemma_ws_prefix_unique(s: Seq<char>, i: int)
    requires
        0 <= i <= s.len(),
        forall|j: int| 0 <= j < i ==> spec_is_ascii_ws(s[j]),
        i < s.len() ==> !spec_is_ascii_ws(s[i]),
    ensures
        ws_prefix_len(s) == i,
    decreases s.len(),
{
    if s.len() > 0 && spec_is_ascii_ws(s[0]) {
        assert(i > 0);
        assert(forall|j: int| 0 <= j < i - 1 ==> s.drop_first()[j] == s[j + 1]);
        lemma_ws_prefix_unique(s.drop_first(), i - 1);
    }
}

proof fn lemma_ws_suffix_unique(s: Seq<char>, i: int)
    requires
        0 <= i <= s.len(),
        forall|j: int| s.len() - i <= j < s.len() ==> spec_is_ascii_ws(s[j]),
        i < s.len() ==> !spec_is_ascii_ws(s[s.len() - 1 - i]),
    ensures
        ws_suffix_len(s) == i,
    decreases s.len(),
{
    if s.len() > 0 && spec_is_ascii_ws(s.last()) {
        assert(i > 0);
        assert(forall|j: int| 0 <= j < s.len() - 1 ==> s.drop_last()[j] == s[j]);
        lemma_ws_suffix_unique(s.drop_last(), i - 1);
    }
}

proof fn lemma_ws_suffix_at_least(s: Seq<char>, i: int)
    requires
        0 <= i <= s.len(),
        forall|j: int| s.len() - i <= j < s.len() ==> spec_is_ascii_ws(s[j]),
    ensures
        ws_suffix_len(s) >= i,
    decreases i,
{
    if i > 0 {
        assert(spec_is_ascii_ws(s.last()));
        assert(forall|j: int| 0 <= j < s.len() - 1 ==> s.drop_last()[j] == s[j]);
        lemma_ws_suffix_at_least(s.drop_last(), i - 1);
    }
}

/// Executable form of [`spec_is_ascii_ws`].
pub fn is_ascii_ws(c: char) -> (r: bool)
    ensures
        r == spec_is_ascii_ws(c),
{
    c == ' ' || c == '\t' || c == '\n' || c == '\r'
}

/// A fresh string holding `s` without its leading and trailing ASCII
/// whitespace.
pub fn trim_ascii(s: &str) -> (r: String)
    ensures
        r@ == trimmed(s@),
{
    let n = s.unicode_len();
    let mut a: usize = 0;
    loop
        invariant
            n == s@.len(),
            a <= n,
            forall|j: int| 0 <= j < a ==> spec_is_ascii_ws(s@[j]),
        ensures
            a <= n,
            forall|j: int| 0 <= j < a ==> spec_is_ascii_ws(s@[j]),
            a < n ==> !spec_is_ascii_ws(s@[a as int]),
        decreases n - a,
    {
        if a >= n {
            break;
        }
        if !is_ascii_ws(s.get_char(a)) {
            break;
        }
        a = a + 1;
    }
    proof {
        lemma_ws_prefix_unique(s@, a as int);
    }
    let mut b: usize = n;
    loop
        invariant
            n == s@.len(),
            a <= b <= n,
            forall|j: int| b <= j < n ==> spec_is_ascii_ws(s@[j]),
        ensures
            a <= b <= n,
            forall|j: int| b <= j < n ==> spec_is_ascii_ws(s@[j]),
            b > a ==> !spec_is_ascii_ws(s@[b - 1]),
        decreases b,
    {
        if b <= a {
            break;
        }
        if !is_ascii_ws(s.get_char(b - 1)) {
            break;
        }
        b = b - 1;
    }
    proof {
        if b > a {
            lemma_ws_suffix_unique(s@, n - b);
            assert(s@.len() - ws_suffix_len(s@) == b);
        } else {
            lemma_ws_suffix_at_least(s@, n - a);
            assert(s@.len() - ws_suffix_len(s@) <= a);
        }
        assert(trimmed(s@) == s@.subrange(a as int, b as int));
    }
    let sub = s.substring_char(a, b);
    sub.to_owned()
}

/// `c` is an ASCII decimal digit.
pub open spec fn spec_is_digit(c: char) -> bool {
    48 <= c as u32 && c as u32 <= 57
}

/// Numeric value of a digit character.
pub open spec fn digit_val(c: char) -> nat {
    (c as u32 - 48) as nat
}

/// Every character of `s` is a digit.
pub open spec fn all_digits(s: Seq<char>) -> bool {
    forall|i: int| 0 <= i < s.len() ==> spec_is_digit(s[i])
}

/// The number denoted by a digit string, most significant digit first.
pub open spec fn digits_val(s: Seq<char>) -> nat
    decreases s.len(),
{
    if s.len() == 0 {
        0
    } else {
        digits_val(s.drop_last()) * 10 + digit_val(s.last())
    }
}

proof fn lemma_digits_val_mono(s: Seq<char>, i: int)
    requires
        0 <= i <= s.len(),
    ensures
        digits_val(s.take(i)) <= digits_val(s),
    decreases s.len() - i,
{
    if i < s.len() {
        lemma_digits_val_mono(s, i + 1);
        assert(s.take(i + 1).drop_last() =~= s.take(i));
        assert(s.take(i + 1).last() == s[i]);
    } else {
        assert(s.take(i) =~= s);
    }
}

/// Parse a string of decimal digits. The result exists exactly when the
/// string is non-empty, holds digits only, and denotes a value that fits
/// in 64 bits.
pub fn parse_u64(s: &str) -> (r: Option<u64>)
    ensures
        r is Some <==> (s@.len() > 0 && all_digits(s@) && digits_val(s@) <= u64::MAX),
        r is Some ==> r->0 == digits_val(s@),
{
    let n = s.unicode_len();
    if n == 0 {
        return None;
    }
    let mut v: u64 = 0;
    let mut i: usize = 0;
    while i < n
        invariant
            n == s@.len(),
            i <= n,
            all_digits(s@.take(i as int)),
            v == digits_val(s@.take(i as int)),
        decreases n - i,
    {
        let c = s.get_char(i);
        let u = c as u32;
        if !(48 <= u && u <= 57) {
            proof {
                assert(!spec_is_digit(s@[i as int]));
            }
            return None;
        }
        let d = (u - 48) as u64;
        if v > (u64::MAX - d) / 10 {
            proof {
                assert((u64::MAX - d) / 10 * 10 + (u64::MAX - d) % 10 == u64::MAX - d);
                assert(v * 10 + d > u64::MAX);
                assert(s@.take(i + 1).drop_last() =~= s@.take(i as int));
                assert(s@.take(i + 1).last() == s@[i as int]);
                assert(digits_val(s@.take(i + 1)) > u64::MAX);
                lemma_digits_val_mono(s@, i + 1);
            }
            return None;
        }
        proof {
            assert((u64::MAX - d) / 10 * 10 + (u64::MAX - d) % 10 == u64::MAX - d);
            assert(v * 10 + d <= u64::MAX);
            assert(s@.take(i + 1).drop_last() =~= s@.take(i as int));
            assert(s@.take(i + 1).last() == s@[i as int]);
        }
        v = v * 10 + d;
        i = i + 1;
    }
    proof {
        assert(s@.take(n as int) =~= s@);
    }
    Some(v)
}

/// The digit character for `d`.
pub open spec fn digit_char(d: nat) -> char {
    ((48 + d) as u32) as char
}

/// Decimal rendering of `n`, most significant digit first, no leading
/// zeros (a single zero for 0).
pub open spec fn dec_str(n: nat) -> Seq<char>
    decreases n,
{
    if n < 10 {
        seq![digit_char(n)]
    } else {
        dec_str(n / 10).push(digit_char(n % 10))
    }
}

fn push_digit(s: &mut String, d: u64)
    requires
        d < 10,
    ensures
        final(s)@ == old(s)@.push(digit_char(d as nat)),
{
    let t: &str = match d {
        0 => "0",
        1 => "1",
        2 => "2",
        3 => "3",
        4 => "4",
        5 => "5",
        6 => "6",
        7 => "7",
        8 => "8",
        _ => "9",
    };
    proof {
        reveal_strlit("0");
        reveal_strlit("1");
        reveal_strlit("2");
        reveal_strlit("3");
        reveal_strlit("4");
        reveal_strlit("5");
        reveal_strlit("6");
        reveal_strlit("7");
        reveal_strlit("8");
        reveal_strlit("9");
        vstd::utf8::char_u32_cast('0', 48);
        vstd::utf8::char_u32_cast('1', 49);
        vstd::utf8::char_u32_cast('2', 50);
        vstd::utf8::char_u32_cast('3', 51);
        vstd::utf8::char_u32_cast('4', 52);
        vstd::utf8::char_u32_cast('5', 53);
        vstd::utf8::char_u32_cast('6', 54);
        vstd::utf8::char_u32_cast('7', 55);
        vstd::utf8::char_u32_cast('8', 56);
        vstd::utf8::char_u32_cast('9', 57);
        assert(t@ =~= seq![digit_char(d as nat)]);
    }
    s.append(t);
    proof {
        assert(old(s)@ + seq![digit_char(d as nat)] =~= old(s)@.push(digit_char(d as nat)));
    }
}

/// Append the decimal rendering of `n` to `s`.
pub fn append_u64(s: &mut String, n: u64)
    ensures
        final(s)@ == old(s)@ + dec_str(n as nat),
    decreases n,
{
    if n < 10 {
        push_digit(s, n);
        proof {
            assert(old(s)@.push(digit_char(n as nat)) =~= old(s)@ + dec_str(n as nat));
        }
    } else {
        append_u64(s, n / 10);
        push_digit(s, n % 10);
        proof {
            assert((old(s)@ + dec_str((n / 10) as nat)).push(digit_char((n % 10) as nat)) =~= old(
                s,
            )@ + dec_str(n as nat));
        }
    }
}

/// The decimal rendering of `n` as a fresh string.
pub fn u64_to_string(n: u64) -> (r: String)
    ensures
        r@ == dec_str(n as nat),
{
    let mut s = String::new();
    append_u64(&mut s, n);
    proof {
        assert(Seq::<char>::empty() + dec_str(n as nat) =~= dec_str(n as nat));
    }
    s
}

/// `h` hundredths rendered with two decimal places: `"12.05"` for 1205.
pub open spec fn fixed2(h: nat) -> Seq<char> {
    dec_str(h / 100) + "."@ + seq![digit_char(h % 100 / 10), digit_char(h % 100 % 10)]
}

/// `t` tenths rendered with one decimal place: `"12.5"` for 125.
pub open spec fn fixed1(t: nat) -> Seq<char> {
    dec_str(t / 10) + "."@ + seq![digit_char(t % 10)]
}

/// Append the one-decimal rendering of `t` tenths to `s`.
pub fn append_fixed1(s: &mut String, t: u64)
    ensures
        final(s)@ == old(s)@ + fixed1(t as nat),
{
    append_u64(s, t / 10);
    s.append(".");
    push_digit(s, t % 10);
    proof {
        assert(final(s)@ =~= old(s)@ + fixed1(t as nat));
    }
}

/// `b / div` in hundredths, rounded to the nearest hundredth
/// (half away from zero).
pub open spec fn scaled_hundredths(b: nat, div: nat) -> nat {
    (b * 100 + div / 2) / div
}

/// A byte count rendered with binary unit prefixes at 1024 thresholds,
/// two decimal places for the scaled units.
pub open spec fn spec_format_bytes(b: nat) -> Seq<char> {
    if b < 1024 {
        dec_str(b) + " B"@
    } else if b < 1048576 {
        fixed2(scaled_hundredths(b, 1024)) + " KB"@
    } else if b < 1073741824 {
        fixed2(scaled_hundredths(b, 1048576)) + " MB"@
    } else {
        fixed2(scaled_hundredths(b, 1073741824)) + " GB"@
    }
}

fn scaled_hundredths_exec(b: u64, div: u64) -> (h: u64)
    requires
        div == 1024 || div == 1048576 || div == 1073741824,
    ensures
        h == scaled_hundredths(b as nat, div as nat),
{
    let wide = (b as u128) * 100 + (div as u128) / 2;
    let h = wide / (div as u128);
    proof {
        assert(h <= wide / 1024);
    }
    h as u64
}

fn append_fixed2(s: &mut String, h: u64)
    ensures
        final(s)@ == old(s)@ + fixed2(h as nat),
{
    append_u64(s, h / 100);
    s.append(".");
    let rem = h % 100;
    push_digit(s, rem / 10);
    push_digit(s, rem % 10);
    proof {
        assert(final(s)@ =~= old(s)@ + fixed2(h as nat));
    }
}

/// A byte count as text with a binary unit prefix (`B`, `KB`, `MB`, `GB`
/// at 1024 thresholds).
pub fn format_bytes(bytes: u64) -> (r: String)
    ensures
        r@ == spec_format_bytes(bytes as nat),
{
    let mut s = String::new();
    if bytes < 1024 {
        append_u64(&mut s, bytes);
        s.append(" B");
        proof {
            assert(s@ =~= spec_format_bytes(bytes as nat));
        }
    } else if bytes < 1048576 {
        let h = scaled_hundredths_exec(bytes, 1024);
        append_fixed2(&mut s, h);
        s.append(" KB");
        proof {
            assert(s@ =~= spec_format_bytes(bytes as nat));
        }
    } else if bytes < 1073741824 {
        let h = scaled_hundredths_exec(bytes, 1048576);
        append_fixed2(&mut s, h);
        s.append(" MB");
        proof {
            assert(s@ =~= spec_format_bytes(bytes as nat));
        }
    } else {
        let h = scaled_hundredths_exec(bytes, 1073741824);
        append_fixed2(&mut s, h);
        s.append(" GB");
        proof {
            assert(s@ =~= spec_format_bytes(bytes as nat));
        }
    }
    s
}

/// The views of a sequence of strings.
pub open spec fn views_of(parts: Seq<String>) -> Seq<Seq<char>> {
    parts.map_values(|p: String| p@)
}

/// Strings joined with a comma-space separator.
pub open spec fn join_comma(parts: Seq<Seq<char>>) -> Seq<char>
    decreases parts.len(),
{
    if parts.len() == 0 {
        Seq::empty()
    } else if parts.len() == 1 {
        parts[0]
    } else {
        join_comma(parts.drop_last()) + ", "@ + parts.last()
    }
}

/// The given names joined with `", "`.
pub fn join_names(parts: &Vec<String>) -> (r: String)
    ensures
        r@ == join_comma(views_of(parts@)),
{
    let ghost vs = views_of(parts@);
    let mut r = String::new();
    let mut i: usize = 0;
    while i < parts.len()
        invariant
            vs == views_of(parts@),
            vs.len() == parts@.len(),
            i <= parts.len(),
            r@ == join_comma(vs.take(i as int)),
        decreases parts.len() - i,
    {
        if i > 0 {
            r.append(", ");
        }
        r.append(parts[i].as_str());
        proof {
            assert(vs.take(i + 1).drop_last() =~= vs.take(i as int));
            assert(vs.take(i + 1).last() == vs[i as int]);
            assert(vs[i as int] == parts@[i as int]@);
            if i == 0 {
                assert(join_comma(vs.take(1)) == vs.take(1)[0]);
                assert(Seq::<char>::empty() + parts@[0]@ =~= parts@[0]@);
            }
        }
        i = i + 1;
    }
    proof {
        assert(vs.take(parts@.len() as int) =~= vs);
    }
    r
}

} // verus!
