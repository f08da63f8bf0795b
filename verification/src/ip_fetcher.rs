//! The response parser and the consensus vote.
//!
//! The parser scans free-form response text for the first substring shaped
//! like a dotted quad (one to three digits, a dot, four groups in all) and
//! parses it strictly: every group at most 255 and without leading zeros.
//! The vote counts the addresses parsed out of the fetched bodies and picks
//! one with the highest count.
use vstd::prelude::*;
use crate::ip::Ipv4;
use crate::text::{digit_of, char_is_digit, digits_val, is_digit, lemma_digits_val_bound,
    lemma_pow10_le, pow10, run_len};

verus! {

/// A dotted-quad pattern match starts at `i`: a run of one to three digits,
/// a dot, three times over, then at least one more digit. The first three
/// group lengths are forced (the run must end exactly at a dot); the fourth
/// group takes up to three digits of the final run.
pub open spec fn match_at(s: Seq<char>, i: int) -> bool {
    let r1 = run_len(s, i) as int;
    let p1 = i + r1 + 1;
    let r2 = run_len(s, p1) as int;
    let p2 = p1 + r2 + 1;
    let r3 = run_len(s, p2) as int;
    let p3 = p2 + r3 + 1;
    &&& 0 <= i < s.len()
    &&& 1 <= r1 <= 3
    &&& i + r1 < s.len() && s[i + r1] == '.'
    &&& 1 <= r2 <= 3
    &&& p1 + r2 < s.len() && s[p1 + r2] == '.'
    &&& 1 <= r3 <= 3
    &&& p2 + r3 < s.len() && s[p2 + r3] == '.'
    &&& run_len(s, p3) >= 1
}

/// Length the fourth group actually takes: up to three digits of its run.
pub open spec fn fourth_len(s: Seq<char>, p3: int) -> int {
    if run_len(s, p3) > 3 {
        3
    } else {
        run_len(s, p3) as int
    }
}

/// The four decimal group values of the match starting at `i`.
pub open spec fn match_vals(s: Seq<char>, i: int) -> (nat, nat, nat, nat) {
    let r1 = run_len(s, i) as int;
    let p1 = i + r1 + 1;
    let r2 = run_len(s, p1) as int;
    let p2 = p1 + r2 + 1;
    let r3 = run_len(s, p2) as int;
    let p3 = p2 + r3 + 1;
    (
        digits_val(s, i, r1),
        digits_val(s, p1, r2),
        digits_val(s, p2, r3),
        digits_val(s, p3, fourth_len(s, p3)),
    )
}

/// Strict dotted-quad parsing of the match at `i` succeeds: every group
/// value is at most 255, and no group has a leading zero.
pub open spec fn strict_ok(s: Seq<char>, i: int) -> bool {
    let r1 = run_len(s, i) as int;
    let p1 = i + r1 + 1;
    let r2 = run_len(s, p1) as int;
    let p2 = p1 + r2 + 1;
    let r3 = run_len(s, p2) as int;
    let p3 = p2 + r3 + 1;
    let vals = match_vals(s, i);
    &&& vals.0 <= 255 && vals.1 <= 255 && vals.2 <= 255 && vals.3 <= 255
    &&& (r1 > 1 ==> s[i] != '0')
    &&& (r2 > 1 ==> s[p1] != '0')
    &&& (r3 > 1 ==> s[p2] != '0')
    &&& (fourth_len(s, p3) > 1 ==> s[p3] != '0')
}

/// The address the match at `i` denotes, when strict parsing succeeds.
pub open spec fn match_ip(s: Seq<char>, i: int) -> Ipv4 {
    let vals = match_vals(s, i);
    Ipv4 { a: vals.0 as u8, b: vals.1 as u8, c: vals.2 as u8, d: vals.3 as u8 }
}

/// Position of the first pattern match at or after `i`, if any.
pub open spec fn first_match_from(s: Seq<char>, i: int) -> Option<int>
    decreases s.len() - i,
    when i <= s.len()
{
    if i < 0 || i >= s.len() {
        None
    } else if match_at(s, i) {
        Some(i)
    } else {
        first_match_from(s, i + 1)
    }
}

/// What parsing a response text yields: the first pattern match, strictly
/// parsed; absent when there is no match or the first match does not parse.
pub open spec fn spec_parse_ip(s: Seq<char>) -> Option<Ipv4> {
    match first_match_from(s, 0) {
        None => None,
        Some(i) => if strict_ok(s, i) {
            Some(match_ip(s, i))
        } else {
            None
        },
    }
}

/// Length of the digit run of `text` starting at `i`.
fn run_len_at(text: &str, n: usize, i: usize) -> (r: usize)
    requires
        n == text@.len(),
        i <= n,
    ensures
        r as nat == run_len(text@, i as int),
        i + r <= n,
    decreases n - i,
{
    if i < n {
        let c = text.get_char(i);
        if char_is_digit(c) {
            let rest = run_len_at(text, n, i + 1);
            return 1 + rest;
        }
    }
    0
}

/// Decimal value of the `len_g` digit characters of `text` starting at
/// `start`.
fn group_val(text: &str, n: usize, start: usize, len_g: usize) -> (v: u32)
    requires
        n == text@.len(),
        start + len_g <= n,
        len_g <= 9,
        run_len(text@, start as int) >= len_g,
    ensures
        v as nat == digits_val(text@, start as int, len_g as int),
        v < pow10(len_g as nat),
{
    proof {
        lemma_run_is_digits(text@, start as int, len_g as int);
    }
    let mut v: u32 = 0;
    let mut k: usize = 0;
    while k < len_g
        invariant
            k <= len_g,
            len_g <= 9,
            start + len_g <= n,
            n == text@.len(),
            forall|j: int| start <= j < start + len_g ==> is_digit(text@[j]),
            v as nat == digits_val(text@, start as int, k as int),
            (v as nat) < pow10(k as nat),
        decreases len_g - k,
    {
        proof {
            assert(pow10(0) == 1);
            assert(pow10(1) == 10);
            assert(pow10(2) == 100);
            assert(pow10(3) == 1000);
            assert(pow10(4) == 10000);
            assert(pow10(5) == 100000);
            assert(pow10(6) == 1000000);
            assert(pow10(7) == 10000000);
            assert(pow10(8) == 100000000);
            lemma_pow10_le(k as nat, 8);
        }
        let c = text.get_char(start + k);
        let d = digit_of(c);
        v = v * 10 + d as u32;
        k = k + 1;
    }
    proof {
        lemma_digits_val_bound(text@, start as int, len_g as int);
    }
    v
}

/// Every character inside a digit run is a digit.
proof fn lemma_run_is_digits(s: Seq<char>, i: int, m: int)
    requires
        0 <= i,
        i + m <= s.len(),
        m >= 0,
        run_len(s, i) >= m,
    ensures
        forall|j: int| i <= j < i + m ==> is_digit(s[j]),
    decreases m,
{
    if m > 0 {
        assert(is_digit(s[i]));
        lemma_run_is_digits(s, i + 1, m - 1);
    }
}

/// Tries the pattern match starting at `i`: absent when no match starts
/// there; otherwise the strict parse of the match.
fn try_match_at(text: &str, n: usize, i: usize) -> (r: Option<Option<Ipv4>>)
    requires
        n == text@.len(),
        i < n,
    ensures
        r == (if match_at(text@, i as int) {
            Some(
                if strict_ok(text@, i as int) {
                    Some(match_ip(text@, i as int))
                } else {
                    None::<Ipv4>
                },
            )
        } else {
            None::<Option<Ipv4>>
        }),
{
    let r1 = run_len_at(text, n, i);
    if r1 < 1 || r1 > 3 || i + r1 >= n || text.get_char(i + r1) != '.' {
        return None;
    }
    let p1 = i + r1 + 1;
    let r2 = run_len_at(text, n, p1);
    if r2 < 1 || r2 > 3 || p1 + r2 >= n || text.get_char(p1 + r2) != '.' {
        return None;
    }
    let p2 = p1 + r2 + 1;
    let r3 = run_len_at(text, n, p2);
    if r3 < 1 || r3 > 3 || p2 + r3 >= n || text.get_char(p2 + r3) != '.' {
        return None;
    }
    let p3 = p2 + r3 + 1;
    let run4 = run_len_at(text, n, p3);
    if run4 < 1 {
        return None;
    }
    let r4: usize = if run4 > 3 {
        3
    } else {
        run4
    };
    let v1 = group_val(text, n, i, r1);
    let v2 = group_val(text, n, p1, r2);
    let v3 = group_val(text, n, p2, r3);
    let v4 = group_val(text, n, p3, r4);
    if v1 > 255 || v2 > 255 || v3 > 255 || v4 > 255 {
        return Some(None);
    }
    if (r1 > 1 && text.get_char(i) == '0') || (r2 > 1 && text.get_char(p1) == '0') || (r3 > 1
        && text.get_char(p2) == '0') || (r4 > 1 && text.get_char(p3) == '0') {
        return Some(None);
    }
    Some(Some(Ipv4 { a: v1 as u8, b: v2 as u8, c: v3 as u8, d: v4 as u8 }))
}

/// The parser finds the first pattern match: for any text whose first
/// dotted-quad pattern match parses strictly (every group at most 255,
/// no leading zeros), parsing the text yields exactly that address.
pub proof fn lemma_parser_returns_first_match(s: Seq<char>, i: int)
    requires
        first_match_from(s, 0) == Some(i),
        strict_ok(s, i),
    ensures
        spec_parse_ip(s) == Some(match_ip(s, i)),
{
}

/// The digit run starting at `i` has length exactly `r` when `r` digits
/// stand there, followed by the end of the text or a non-digit.
proof fn lemma_run_len_exact(s: Seq<char>, i: int, r: int)
    requires
        0 <= i,
        r >= 0,
        i + r <= s.len(),
        forall|k: int| i <= k < i + r ==> is_digit(s[k]),
        i + r == s.len() || !is_digit(s[i + r]),
    ensures
        run_len(s, i) == r,
    decreases r,
{
    if r > 0 {
        assert(is_digit(s[i]));
        lemma_run_len_exact(s, i + 1, r - 1);
    }
}

/// Wherever a substring of dotted-quad shape starts — one to three digits,
/// a dot, four groups in all — a pattern match starts.
pub proof fn lemma_quad_shape_matches(s: Seq<char>, i: int, r1: int, r2: int, r3: int, r4: int)
    requires
        0 <= i,
        1 <= r1 <= 3,
        1 <= r2 <= 3,
        1 <= r3 <= 3,
        1 <= r4,
        i + r1 + r2 + r3 + r4 + 3 <= s.len(),
        forall|k: int| i <= k < i + r1 ==> is_digit(s[k]),
        s[i + r1] == '.',
        forall|k: int| i + r1 + 1 <= k < i + r1 + 1 + r2 ==> is_digit(s[k]),
        s[i + r1 + 1 + r2] == '.',
        forall|k: int| i + r1 + r2 + 2 <= k < i + r1 + r2 + 2 + r3 ==> is_digit(s[k]),
        s[i + r1 + r2 + 2 + r3] == '.',
        forall|k: int| i + r1 + r2 + r3 + 3 <= k < i + r1 + r2 + r3 + 3 + r4 ==> is_digit(s[k]),
    ensures
        match_at(s, i),
{
    let p1 = i + r1 + 1;
    let p2 = p1 + r2 + 1;
    let p3 = p2 + r3 + 1;
    lemma_run_len_exact(s, i, r1);
    lemma_run_len_exact(s, p1, r2);
    lemma_run_len_exact(s, p2, r3);
    assert(is_digit(s[p3]));
    assert(run_len(s, p3) >= 1);
}

/// The first-match position is a match position inside the text.
proof fn lemma_first_match_is_match(s: Seq<char>, i: int)
    requires
        0 <= i <= s.len(),
        first_match_from(s, i) is Some,
    ensures
        i <= first_match_from(s, i)->0 < s.len(),
        match_at(s, first_match_from(s, i)->0),
    decreases s.len() - i,
{
    if i < s.len() && !match_at(s, i) {
        lemma_first_match_is_match(s, i + 1);
    }
}

/// The parser succeeds only on text that holds a pattern match.
pub proof fn lemma_parser_success_needs_match(s: Seq<char>)
    requires
        spec_parse_ip(s) is Some,
    ensures
        exists|j: int| 0 <= j < s.len() && match_at(s, j),
{
    lemma_first_match_is_match(s, 0);
}

/// No occurrence of the first-match position before `i`.
proof fn lemma_no_match_prefix(s: Seq<char>, i: int)
    requires
        0 <= i <= s.len(),
        forall|j: int| 0 <= j < s.len() ==> !match_at(s, j),
    ensures
        first_match_from(s, i) is None,
    decreases s.len() - i,
{
    if i < s.len() {
        lemma_no_match_prefix(s, i + 1);
    }
}

/// The parser fails on text with no dotted-quad pattern match.
pub proof fn lemma_parser_fails_without_match(s: Seq<char>)
    requires
        forall|j: int| 0 <= j < s.len() ==> !match_at(s, j),
    ensures
        spec_parse_ip(s) is None,
{
    lemma_no_match_prefix(s, 0);
}

/// The addresses parsed out of one cycle's fetch outcomes, in order: a body
/// contributes the address it parses to, an absent body or one that does not
/// parse contributes nothing.
pub open spec fn parsed_ips(bodies: Seq<Option<String>>) -> Seq<Ipv4>
    decreases bodies.len(),
{
    if bodies.len() == 0 {
        Seq::empty()
    } else {
        let rest = parsed_ips(bodies.drop_last());
        match bodies.last() {
            Some(body) => match spec_parse_ip(body@) {
                Some(ip) => rest.push(ip),
                None => rest,
            },
            None => rest,
        }
    }
}

/// How often `x` occurs in `s`.
pub open spec fn count_of(s: Seq<Ipv4>, x: Ipv4) -> nat
    decreases s.len(),
{
    if s.len() == 0 {
        0
    } else {
        count_of(s.drop_last(), x) + if s.last() == x {
            1nat
        } else {
            0nat
        }
    }
}

/// An address that does not occur in `s` has count zero.
proof fn lemma_count_absent(s: Seq<Ipv4>, x: Ipv4)
    requires
        !s.contains(x),
    ensures
        count_of(s, x) == 0,
    decreases s.len(),
{
    if s.len() > 0 {
        assert(!s.drop_last().contains(x)) by {
            if s.drop_last().contains(x) {
                let j = choose|j: int| 0 <= j < s.drop_last().len() && s.drop_last()[j] == x;
                assert(s[j] == x);
            }
        }
        lemma_count_absent(s.drop_last(), x);
    }
}

/// An address that occurs at `j` in `s` has a positive count.
proof fn lemma_count_pos(s: Seq<Ipv4>, j: int)
    requires
        0 <= j < s.len(),
    ensures
        count_of(s, s[j]) >= 1,
    decreases s.len(),
{
    if j == s.len() - 1 {
    } else {
        assert(s.drop_last()[j] == s[j]);
        lemma_count_pos(s.drop_last(), j);
    }
}

/// How often `x` occurs in `v`.
fn count_in(v: &Vec<Ipv4>, x: Ipv4) -> (c: usize)
    ensures
        c as nat == count_of(v@, x),
{
    let mut c: usize = 0;
    let mut i: usize = 0;
    while i < v.len()
        invariant
            i <= v.len(),
            c <= i,
            c as nat == count_of(v@.subrange(0, i as int), x),
        decreases v.len() - i,
    {
        proof {
            assert(v@.subrange(0, i + 1).drop_last() =~= v@.subrange(0, i as int));
            assert(v@.subrange(0, i + 1).last() == v@[i as int]);
        }
        if v[i] == x {
            c = c + 1;
        }
        i = i + 1;
    }
    proof {
        assert(v@.subrange(0, v@.len() as int) =~= v@);
    }
    c
}

/// The pool of IP-detection endpoints, configured once at startup.
pub struct IpFetcher {
    pub ip_services: Vec<String>,
}

impl IpFetcher {
    /// A fetcher over the given endpoint pool.
    pub fn new(ip_services: Vec<String>) -> (r: Self)
        ensures
            r.ip_services == ip_services,
    {
        Self { ip_services }
    }

    /// Majority vote over one poll cycle's fetch outcomes. Each fetched
    /// body (absent for a transport failure) is parsed; the vote picks an
    /// address with the highest count among the parsed ones, and is absent
    /// exactly when no body parses. Which of several tied addresses wins is
    /// left open.
    pub fn consensus(bodies: &Vec<Option<String>>) -> (r: Option<Ipv4>)
        ensures
            match r {
                Some(ip) => parsed_ips(bodies@).contains(ip) && forall|x: Ipv4|
                    count_of(parsed_ips(bodies@), x) <= count_of(parsed_ips(bodies@), ip),
                None => parsed_ips(bodies@).len() == 0,
            },
    {
        let ghost all = bodies@;
        let mut ips: Vec<Ipv4> = Vec::new();
        let mut bi: usize = 0;
        while bi < bodies.len()
            invariant
                bi <= bodies.len(),
                bodies@ == all,
                ips@ == parsed_ips(all.subrange(0, bi as int)),
            decreases bodies.len() - bi,
        {
            match &bodies[bi] {
                Some(body) => {
                    match Self::text_to_ipv4(body.as_str()) {
                        Some(ip) => {
                            ips.push(ip);
                        },
                        None => {},
                    }
                },
                None => {},
            }
            proof {
                assert(all.subrange(0, bi + 1).drop_last() =~= all.subrange(0, bi as int));
                assert(all.subrange(0, bi + 1).last() == all[bi as int]);
            }
            bi = bi + 1;
        }
        proof {
            assert(all.subrange(0, all.len() as int) =~= all);
        }
        let mut best: Option<Ipv4> = None;
        let mut best_count: usize = 0;
        let mut k: usize = 0;
        while k < ips.len()
            invariant
                k <= ips.len(),
                ips@ == parsed_ips(all),
                match best {
                    Some(b) => ips@.contains(b) && best_count == count_of(ips@, b) && best_count
                        >= 1,
                    None => k == 0 && best_count == 0,
                },
                forall|j: int| 0 <= j < k ==> count_of(ips@, ips@[j]) <= best_count,
            decreases ips.len() - k,
        {
            let candidate = ips[k];
            let c = count_in(&ips, candidate);
            proof {
                lemma_count_pos(ips@, k as int);
            }
            if c > best_count {
                best = Some(candidate);
                best_count = c;
            }
            k = k + 1;
        }
        proof {
            if best is Some {
                assert forall|x: Ipv4| #[trigger] count_of(ips@, x) <= count_of(
                    ips@,
                    best->0,
                ) by {
                    if ips@.contains(x) {
                        let j = choose|j: int| 0 <= j < ips@.len() && ips@[j] == x;
                        assert(count_of(ips@, ips@[j]) <= best_count);
                    } else {
                        lemma_count_absent(ips@, x);
                    }
                }
            }
        }
        best
    }

    /// Extracts an IPv4 address from free-form response text: the first
    /// dotted-quad pattern match, strictly parsed; absent when no pattern
    /// match exists or the first match fails strict parsing.
    pub fn text_to_ipv4(text: &str) -> (r: Option<Ipv4>)
        ensures
            r == spec_parse_ip(text@),
    {
        let n = text.unicode_len();
        let mut i: usize = 0;
        while i < n
            invariant
                i <= n,
                n == text@.len(),
                first_match_from(text@, 0) == first_match_from(text@, i as int),
            decreases n - i,
        {
            match try_match_at(text, n, i) {
                Some(parsed) => {
                    return parsed;
                },
                None => {},
            }
            i = i + 1;
        }
        None
    }
}

} // verus!
