//! Character-level helpers shared by the response parser, the decimal
//! formatter and the reply-envelope decoder: digit classification, decimal
//! values of digit runs, and substring search over `Seq<char>`.
use vstd::prelude::*;

verus! {

/// The ten ASCII decimal digits.
pub open spec fn is_digit(c: char) -> bool {
    c == '0' || c == '1' || c == '2' || c == '3' || c == '4' || c == '5' || c == '6' || c == '7'
        || c == '8' || c == '9'
}

/// Numeric value of a decimal digit.
pub open spec fn digit_val(c: char) -> nat {
    if c == '0' {
        0
    } else if c == '1' {
        1
    } else if c == '2' {
        2
    } else if c == '3' {
        3
    } else if c == '4' {
        4
    } else if c == '5' {
        5
    } else if c == '6' {
        6
    } else if c == '7' {
        7
    } else if c == '8' {
        8
    } else {
        9
    }
}

/// The digit character for a value below ten.
pub open spec fn digit_char(d: nat) -> char {
    if d == 0 {
        '0'
    } else if d == 1 {
        '1'
    } else if d == 2 {
        '2'
    } else if d == 3 {
        '3'
    } else if d == 4 {
        '4'
    } else if d == 5 {
        '5'
    } else if d == 6 {
        '6'
    } else if d == 7 {
        '7'
    } else if d == 8 {
        '8'
    } else {
        '9'
    }
}

/// Value of the `n` digit characters of `s` starting at `i`, read as a
/// decimal number (most significant digit first).
pub open spec fn digits_val(s: Seq<char>, i: int, n: int) -> nat
    decreases n,
{
    if n <= 0 {
        0
    } else {
        digits_val(s, i, n - 1) * 10 + digit_val(s[i + n - 1])
    }
}

/// Length of the run of consecutive digit characters of `s` starting at `i`.
pub open spec fn run_len(s: Seq<char>, i: int) -> nat
    decreases s.len() - i,
    when i <= s.len()
{
    if 0 <= i < s.len() && is_digit(s[i]) {
        (1 + run_len(s, i + 1)) as nat
    } else {
        0
    }
}

/// Decimal notation of `n`, without leading zeros.
pub open spec fn dec_chars(n: nat) -> Seq<char>
    decreases n,
{
    if n < 10 {
        seq![digit_char(n)]
    } else {
        dec_chars(n / 10).push(digit_char(n % 10))
    }
}

/// Ten to the power `n`.
pub open spec fn pow10(n: nat) -> nat
    decreases n,
{
    if n == 0 {
        1
    } else {
        10 * pow10((n - 1) as nat)
    }
}

/// Ten to the power of the smaller exponent is at most ten to the larger.
pub proof fn lemma_pow10_le(a: nat, b: nat)
    requires
        a <= b,
    ensures
        pow10(a) <= pow10(b),
    decreases b,
{
    if a < b {
        lemma_pow10_le(a, (b - 1) as nat);
    }
}

/// A run of digits of length `n` reads as a value below ten to the `n`.
pub proof fn lemma_digits_val_bound(s: Seq<char>, i: int, n: int)
    requires
        n >= 0,
    ensures
        digits_val(s, i, n) < pow10(n as nat),
    decreases n,
{
    if n > 0 {
        lemma_digits_val_bound(s, i, n - 1);
    }
}

/// The pattern `p` occurs in `s` at position `i`.
pub open spec fn occurs_at(s: Seq<char>, p: Seq<char>, i: int) -> bool {
    0 <= i && i + p.len() <= s.len() && s.subrange(i, i + p.len() as int) == p
}

/// Position of the first occurrence of `p` in `s` at or after `i`, if any;
/// an empty pattern is not searched for.
pub open spec fn first_occurrence_from(s: Seq<char>, p: Seq<char>, i: int) -> Option<int>
    decreases s.len() - i,
    when i <= s.len()
{
    if i < 0 || i + p.len() > s.len() || p.len() == 0 {
        None
    } else if occurs_at(s, p, i) {
        Some(i)
    } else {
        first_occurrence_from(s, p, i + 1)
    }
}

/// All characters of `s` are decimal digits.
pub open spec fn all_digits(s: Seq<char>) -> bool {
    forall|k: int| 0 <= k < s.len() ==> is_digit(s[k])
}

/// The pattern `pat` read against `text` at position `i`.
fn matches_at(text: &str, n: usize, pat: &str, m: usize, i: usize) -> (r: bool)
    requires
        n == text@.len(),
        m == pat@.len(),
        i + m <= n,
    ensures
        r == occurs_at(text@, pat@, i as int),
{
    let mut k: usize = 0;
    while k < m
        invariant
            k <= m,
            i + m <= n,
            n == text@.len(),
            m == pat@.len(),
            forall|j: int| 0 <= j < k ==> text@[i + j] == pat@[j],
        decreases m - k,
    {
        if text.get_char(i + k) != pat.get_char(k) {
            proof {
                assert(text@.subrange(i as int, i + m) != pat@) by {
                    assert(text@.subrange(i as int, i + m)[k as int] == text@[i + k]);
                }
            }
            return false;
        }
        k = k + 1;
    }
    proof {
        assert(text@.subrange(i as int, i + m) =~= pat@);
    }
    true
}

/// Position of the first occurrence of `pat` in `text` at or after `from`,
/// if any.
pub fn find_sub(text: &str, n: usize, pat: &str, m: usize, from: usize) -> (r: Option<usize>)
    requires
        n == text@.len(),
        m == pat@.len(),
        from <= n,
    ensures
        match r {
            Some(j) => first_occurrence_from(text@, pat@, from as int) == Some(j as int) && from
                <= j && occurs_at(text@, pat@, j as int),
            None => first_occurrence_from(text@, pat@, from as int) is None,
        },
{
    if m > n {
        return None;
    }
    if m == 0 {
        return None;
    }
    let mut i: usize = from;
    while i <= n - m
        invariant
            from <= i,
            1 <= m <= n,
            i <= n,
            n == text@.len(),
            m == pat@.len(),
            first_occurrence_from(text@, pat@, from as int) == first_occurrence_from(
                text@,
                pat@,
                i as int,
            ),
        decreases n - i,
    {
        if matches_at(text, n, pat, m, i) {
            return Some(i);
        }
        proof {
            assert(first_occurrence_from(text@, pat@, i as int) == first_occurrence_from(
                text@,
                pat@,
                i + 1,
            ));
        }
        i = i + 1;
    }
    proof {
        assert(first_occurrence_from(text@, pat@, i as int) is None);
    }
    None
}

/// Reads `s` as an unsigned decimal number: between one and nine digit
/// characters and nothing else.
pub fn parse_decimal(s: &str) -> (r: Option<u32>)
    ensures
        match r {
            Some(v) => 1 <= s@.len() <= 9 && all_digits(s@) && v as nat == digits_val(
                s@,
                0,
                s@.len() as int,
            ),
            None => !(1 <= s@.len() <= 9 && all_digits(s@)),
        },
{
    let n = s.unicode_len();
    if n < 1 || n > 9 {
        return None;
    }
    let mut v: u32 = 0;
    let mut k: usize = 0;
    while k < n
        invariant
            k <= n,
            1 <= n <= 9,
            n == s@.len(),
            forall|j: int| 0 <= j < k ==> is_digit(s@[j]),
            v as nat == digits_val(s@, 0, k as int),
            (v as nat) < pow10(k as nat),
        decreases n - k,
    {
        let c = s.get_char(k);
        if !char_is_digit(c) {
            return None;
        }
        let d = digit_of(c);
        proof {
            assert(pow10(0) == 1);
            assert(pow10(1) == 10);
            assert(pow10(2) == 100);
            assert(pow10(3) == 1000);
            assert(pow10(4) == 10000);
            assert(pow10(5) == 100000);
            assert(pow10(6) == 1000000);
            assert(pow10(7) == 10000000);
            assert(pow10(8) == 100000000);
            lemma_pow10_le(k as nat, 8);
        }
        v = v * 10 + d as u32;
        k = k + 1;
    }
    Some(v)
}

/// Digit test on a character.
pub fn char_is_digit(c: char) -> (r: bool)
    ensures
        r == is_digit(c),
{
    c == '0' || c == '1' || c == '2' || c == '3' || c == '4' || c == '5' || c == '6' || c == '7'
        || c == '8' || c == '9'
}

/// Numeric value of a digit character.
pub fn digit_of(c: char) -> (d: u8)
    requires
        is_digit(c),
    ensures
        d as nat == digit_val(c),
        d < 10,
{
    if c == '0' {
        0
    } else if c == '1' {
        1
    } else if c == '2' {
        2
    } else if c == '3' {
        3
    } else if c == '4' {
        4
    } else if c == '5' {
        5
    } else if c == '6' {
        6
    } else if c == '7' {
        7
    } else if c == '8' {
        8
    } else {
        9
    }
}

} // verus!
