//! Character-level helpers shared by the persistence codec and the
//! text renderers: canonical decimal numerals over `Seq<char>`, and
//! small executable routines that append to or read from char buffers.

use vstd::prelude::*;

verus! {

use vstd::string::StrSliceExecFns;

// ---------------------------------------------------------------------
// Digits
// ---------------------------------------------------------------------

/// The numeral character for a single decimal digit.
pub open spec fn digit_char(d: int) -> char {
    if d == 0 {
        '0'
    } else if d == 1 {
        '1'
    } else if d == 2 {
        '2'
    } else if d == 3 {
        '3'
    } else if d == 4 {
        '4'
    } else if d == 5 {
        '5'
    } else if d == 6 {
        '6'
    } else if d == 7 {
        '7'
    } else if d == 8 {
        '8'
    } else {
        '9'
    }
}

/// The value of a decimal digit character, or -1 for any other character.
pub open spec fn char_digit(c: char) -> int {
    if c == '0' {
        0
    } else if c == '1' {
        1
    } else if c == '2' {
        2
    } else if c == '3' {
        3
    } else if c == '4' {
        4
    } else if c == '5' {
        5
    } else if c == '6' {
        6
    } else if c == '7' {
        7
    } else if c == '8' {
        8
    } else if c == '9' {
        9
    } else {
        -1
    }
}

pub open spec fn is_digit(c: char) -> bool {
    char_digit(c) >= 0
}

pub open spec fn all_digits(s: Seq<char>) -> bool {
    forall|i: int| 0 <= i < s.len() ==> is_digit(#[trigger] s[i])
}

/// Canonical decimal numeral of a natural number (no leading zeros).
pub open spec fn digits(v: nat) -> Seq<char>
    decreases v,
{
    if v < 10 {
        seq![digit_char(v as int)]
    } else {
        digits(v / 10).push(digit_char((v % 10) as int))
    }
}

/// Canonical decimal numeral of an integer: a leading '-' when negative.
pub open spec fn signed_digits(v: int) -> Seq<char> {
    if v < 0 {
        seq!['-'] + digits((-v) as nat)
    } else {
        digits(v as nat)
    }
}

/// The number denoted by a sequence of digit characters (most
/// significant first).
pub open spec fn digits_val(s: Seq<char>) -> int
    decreases s.len(),
{
    if s.len() == 0 {
        0
    } else {
        digits_val(s.drop_last()) * 10 + char_digit(s.last())
    }
}

pub open spec fn pow10(k: nat) -> int
    decreases k,
{
    if k == 0 {
        1
    } else {
        10 * pow10((k - 1) as nat)
    }
}

pub proof fn lemma_char_digit_inverse(d: int)
    requires
        0 <= d < 10,
    ensures
        char_digit(digit_char(d)) == d,
        is_digit(digit_char(d)),
{
}

pub proof fn lemma_digits_all_digits(v: nat)
    ensures
        all_digits(digits(v)),
    decreases v,
{
    if v < 10 {
        lemma_char_digit_inverse(v as int);
        assert forall|i: int| 0 <= i < digits(v).len() implies is_digit(#[trigger] digits(v)[i])
            by {
            assert(digits(v)[i] == digit_char(v as int));
        }
    } else {
        lemma_digits_all_digits(v / 10);
        lemma_char_digit_inverse((v % 10) as int);
        assert forall|i: int| 0 <= i < digits(v).len() implies is_digit(#[trigger] digits(v)[i])
            by {
            if i < digits(v).len() - 1 {
                assert(digits(v)[i] == digits(v / 10)[i]);
                assert(is_digit(digits(v / 10)[i]));
            } else {
                assert(digits(v)[i] == digit_char((v % 10) as int));
            }
        }
    }
}

pub proof fn lemma_digits_val(v: nat)
    ensures
        digits_val(digits(v)) == v,
    decreases v,
{
    if v < 10 {
        lemma_char_digit_inverse(v as int);
        assert(digits(v) =~= seq![digit_char(v as int)]);
        assert(digits(v).drop_last() =~= Seq::<char>::empty());
        assert(digits(v).last() == digit_char(v as int));
        assert(digits_val(digits(v)) == digits_val(Seq::<char>::empty()) * 10 + char_digit(
            digit_char(v as int),
        ));
    } else {
        lemma_digits_val(v / 10);
        lemma_char_digit_inverse((v % 10) as int);
        assert(digits(v).drop_last() =~= digits(v / 10));
        assert(digits(v).last() == digit_char((v % 10) as int));
        assert(digits_val(digits(v)) == digits_val(digits(v / 10)) * 10 + char_digit(
            digit_char((v % 10) as int),
        ));
        assert((v / 10) * 10 + v % 10 == v);
    }
}

/// A value below `pow10(k)` has at most `k` digits.
pub proof fn lemma_digits_len(v: nat, k: nat)
    requires
        k >= 1,
        v < pow10(k),
    ensures
        1 <= digits(v).len() <= k,
    decreases v,
{
    if v >= 10 {
        assert(pow10(k) == 10 * pow10((k - 1) as nat));
        assert(v / 10 < pow10((k - 1) as nat)) by {
            assert(v < 10 * pow10((k - 1) as nat));
            assert(v / 10 >= pow10((k - 1) as nat) ==> v >= 10 * pow10((k - 1) as nat))
                by (nonlinear_arith);
        }
        lemma_digits_len(v / 10, (k - 1) as nat);
    }
}

/// A digit string of length `k` denotes a value in `[0, pow10(k))`.
pub proof fn lemma_digits_val_bound(s: Seq<char>)
    requires
        all_digits(s),
    ensures
        0 <= digits_val(s) < pow10(s.len()),
    decreases s.len(),
{
    if s.len() > 0 {
        assert(all_digits(s.drop_last())) by {
            assert(forall|i: int|
                0 <= i < s.len() - 1 ==> is_digit(#[trigger] s.drop_last()[i]) == is_digit(s[i]));
        }
        lemma_digits_val_bound(s.drop_last());
        assert(is_digit(s.last()));
        assert(pow10(s.len()) == 10 * pow10((s.len() - 1) as nat));
        assert(digits_val(s.drop_last()) * 10 + 9 < 10 * pow10((s.len() - 1) as nat))
            by (nonlinear_arith)
            requires
                digits_val(s.drop_last()) < pow10((s.len() - 1) as nat),
        ;
    }
}

pub proof fn lemma_pow10_20()
    ensures
        pow10(19) == 0x8AC7230489E80000,
        pow10(20) == 0x56BC75E2D63100000,
        pow10(20) > u64::MAX,
        pow10(20) < u128::MAX,
{
    assert(pow10(0) == 1);
    assert(pow10(1) == 10);
    assert(pow10(2) == 100);
    assert(pow10(3) == 1000);
    assert(pow10(4) == 10000);
    assert(pow10(5) == 100000);
    assert(pow10(6) == 1000000);
    assert(pow10(7) == 10000000);
    assert(pow10(8) == 100000000);
    assert(pow10(9) == 1000000000);
    assert(pow10(10) == 10000000000);
    assert(pow10(11) == 100000000000);
    assert(pow10(12) == 1000000000000);
    assert(pow10(13) == 10000000000000);
    assert(pow10(14) == 100000000000000);
    assert(pow10(15) == 1000000000000000);
    assert(pow10(16) == 10000000000000000);
    assert(pow10(17) == 100000000000000000);
    assert(pow10(18) == 1000000000000000000);
    assert(pow10(19) == 10000000000000000000);
    assert(pow10(20) == 100000000000000000000);
}

// ---------------------------------------------------------------------
// Appending to a char buffer
// ---------------------------------------------------------------------

/// Appends every character of `s` to `out`.
pub fn push_str_chars(out: &mut Vec<char>, s: &str)
    ensures
        final(out)@ == old(out)@ + s@,
{
    let n = s.unicode_len();
    let mut i: usize = 0;
    while i < n
        invariant
            n == s@.len(),
            0 <= i <= n,
            out@ == old(out)@ + s@.take(i as int),
        decreases n - i,
    {
        out.push(s.get_char(i));
        i = i + 1;
        assert(out@ =~= old(out)@ + s@.take(i as int));
    }
    assert(out@ =~= old(out)@ + s@);
}

/// A fresh vector with the same characters.
pub fn copy_chars(s: &Vec<char>) -> (r: Vec<char>)
    ensures
        r@ == s@,
{
    let mut out: Vec<char> = Vec::new();
    push_chars(&mut out, s);
    out
}

/// The characters of a string slice as a vector.
pub fn str_to_chars(s: &str) -> (r: Vec<char>)
    ensures
        r@ == s@,
{
    let mut out: Vec<char> = Vec::new();
    push_str_chars(&mut out, s);
    out
}

/// Appends every character of `s` to `out`.
pub fn push_chars(out: &mut Vec<char>, s: &Vec<char>)
    ensures
        final(out)@ == old(out)@ + s@,
{
    let n = s.len();
    let mut i: usize = 0;
    while i < n
        invariant
            n == s@.len(),
            0 <= i <= n,
            out@ == old(out)@ + s@.take(i as int),
        decreases n - i,
    {
        out.push(s[i]);
        i = i + 1;
        assert(out@ =~= old(out)@ + s@.take(i as int));
    }
    assert(out@ =~= old(out)@ + s@);
}

/// The numeral character for `d`.
pub fn digit_to_char(d: u8) -> (c: char)
    requires
        d < 10,
    ensures
        c == digit_char(d as int),
{
    match d {
        0 => '0',
        1 => '1',
        2 => '2',
        3 => '3',
        4 => '4',
        5 => '5',
        6 => '6',
        7 => '7',
        8 => '8',
        _ => '9',
    }
}

/// The value of a digit character, if `c` is one.
pub fn char_to_digit(c: char) -> (d: Option<u8>)
    ensures
        d matches Some(v) ==> v == char_digit(c) && is_digit(c),
        d is None ==> !is_digit(c),
{
    match c {
        '0' => Some(0),
        '1' => Some(1),
        '2' => Some(2),
        '3' => Some(3),
        '4' => Some(4),
        '5' => Some(5),
        '6' => Some(6),
        '7' => Some(7),
        '8' => Some(8),
        '9' => Some(9),
        _ => None,
    }
}

/// Appends the canonical decimal numeral of `v` to `out`.
pub fn push_decimal(out: &mut Vec<char>, v: u128)
    ensures
        final(out)@ == old(out)@ + digits(v as nat),
{
    let mut tmp: Vec<char> = Vec::new();
    let mut cur: u128 = v;
    loop
        invariant
            digits(v as nat) =~= (if cur == 0 && tmp@.len() > 0 {
                Seq::<char>::empty()
            } else {
                digits(cur as nat)
            }) + tmp@.reverse(),
        ensures
            cur == 0 && tmp@.len() > 0,
        decreases cur, (if tmp@.len() == 0 { 1int } else { 0int }),
    {
        if cur == 0 && tmp.len() > 0 {
            break;
        }
        let ghost pre = tmp@;
        let ghost precur = cur as nat;
        let d = (cur % 10) as u8;
        tmp.push(digit_to_char(d));
        cur = cur / 10;
        proof {
            assert(tmp@ =~= pre.push(digit_char((precur % 10) as int)));
            assert(tmp@.reverse() =~= seq![digit_char((precur % 10) as int)] + pre.reverse());
            if precur < 10 {
                assert(precur % 10 == precur);
                assert(cur == 0);
                assert(digits(precur) =~= seq![digit_char((precur % 10) as int)]);
                assert(digits(v as nat) =~= Seq::<char>::empty() + tmp@.reverse());
            } else {
                assert(cur == precur / 10 >= 1);
                assert(digits(precur) =~= digits(precur / 10).push(
                    digit_char((precur % 10) as int),
                ));
                assert(digits(v as nat) =~= digits(cur as nat) + tmp@.reverse());
            }
        }
    }
    assert(digits(v as nat) =~= tmp@.reverse());
    let n = tmp.len();
    let mut i: usize = 0;
    while i < n
        invariant
            n == tmp@.len(),
            0 <= i <= n,
            out@ == old(out)@ + tmp@.reverse().take(i as int),
            digits(v as nat) == tmp@.reverse(),
        decreases n - i,
    {
        out.push(tmp[n - 1 - i]);
        i = i + 1;
        assert(out@ =~= old(out)@ + tmp@.reverse().take(i as int));
    }
    assert(out@ =~= old(out)@ + digits(v as nat));
}

/// Appends the canonical signed decimal numeral of `v` to `out`.
pub fn push_signed(out: &mut Vec<char>, v: i128)
    requires
        v > i128::MIN,
    ensures
        final(out)@ == old(out)@ + signed_digits(v as int),
{
    if v < 0 {
        out.push('-');
        let ghost mid = out@;
        push_decimal(out, (-v) as u128);
        assert(out@ =~= old(out)@ + signed_digits(v as int));
    } else {
        push_decimal(out, v as u128);
    }
}

// ---------------------------------------------------------------------
// Reading from a char buffer
// ---------------------------------------------------------------------

/// The first position at or after `p` holding a non-digit, or the end.
pub open spec fn scan_digits(s: Seq<char>, p: int) -> int
    decreases s.len() - p when 0 <= p <= s.len()
{
    if p == s.len() || !is_digit(s[p]) {
        p
    } else {
        scan_digits(s, p + 1)
    }
}

pub proof fn lemma_scan_digits_props(s: Seq<char>, p: int)
    requires
        0 <= p <= s.len(),
    ensures
        p <= scan_digits(s, p) <= s.len(),
        all_digits(s.subrange(p, scan_digits(s, p))),
        scan_digits(s, p) < s.len() ==> !is_digit(s[scan_digits(s, p)]),
    decreases s.len() - p,
{
    if p < s.len() && is_digit(s[p]) {
        lemma_scan_digits_props(s, p + 1);
        let e = scan_digits(s, p);
        assert(e == scan_digits(s, p + 1));
        let sub = s.subrange(p, e);
        assert forall|i: int| 0 <= i < sub.len() implies is_digit(#[trigger] sub[i]) by {
            if i == 0 {
                assert(sub[0] == s[p]);
            } else {
                assert(sub[i] == s.subrange(p + 1, e)[i - 1]);
                assert(is_digit(s.subrange(p + 1, e)[i - 1]));
            }
        }
    }
}

/// Where a digit run of known extent ends, the scan ends with it.
pub proof fn lemma_scan_digits_exact(s: Seq<char>, p: int, e: int)
    requires
        0 <= p <= e <= s.len(),
        all_digits(s.subrange(p, e)),
        e < s.len() ==> !is_digit(s[e]),
    ensures
        scan_digits(s, p) == e,
    decreases e - p,
{
    if p < e {
        assert(is_digit(s[p])) by {
            assert(s.subrange(p, e)[0] == s[p]);
        }
        assert(all_digits(s.subrange(p + 1, e))) by {
            assert(forall|i: int|
                0 <= i < e - p - 1 ==> #[trigger] s.subrange(p + 1, e)[i] == s.subrange(p, e)[i
                    + 1]);
        }
        lemma_scan_digits_exact(s, p + 1, e);
    }
}

/// Parse of a decimal numeral terminated by `term`: the run of digits
/// starting at `p`, which must be nonempty, at most 20 digits, denote a
/// value that fits in `u64`, and be followed by `term`, which is
/// consumed.
pub open spec fn spec_parse_decimal(s: Seq<char>, p: int, term: char) -> Option<(u64, int)> {
    let e = scan_digits(s, p);
    if e == p || e - p > 20 || e >= s.len() || s[e] != term || digits_val(s.subrange(p, e))
        > u64::MAX {
        None
    } else {
        Some((digits_val(s.subrange(p, e)) as u64, e + 1))
    }
}

pub fn parse_decimal(s: &Vec<char>, p: usize, term: char) -> (r: Option<(u64, usize)>)
    requires
        p <= s@.len(),
        !is_digit(term),
    ensures
        r matches Some(v) ==> spec_parse_decimal(s@, p as int, term) == Some(
            (v.0, v.1 as int),
        ) && v.1 <= s@.len(),
        r is None ==> spec_parse_decimal(s@, p as int, term) is None,
{
    proof {
        lemma_scan_digits_props(s@, p as int);
    }
    let n = s.len();
    let mut e: usize = p;
    while e < n && char_to_digit(s[e]).is_some()
        invariant
            p <= e <= n,
            n == s@.len(),
            scan_digits(s@, p as int) == scan_digits(s@, e as int),
        decreases n - e,
    {
        e = e + 1;
    }
    proof {
        assert(scan_digits(s@, e as int) == e);
        assert(scan_digits(s@, p as int) == e);
    }
    if e == p || e - p > 20 || e == n {
        return None;
    }
    if s[e] != term {
        return None;
    }
    proof {
        lemma_pow10_20();
        lemma_digits_val_bound(s@.subrange(p as int, e as int));
    }
    let mut acc: u128 = 0;
    let mut i: usize = p;
    while i < e
        invariant
            p <= i <= e <= n,
            n == s@.len(),
            e - p <= 20,
            all_digits(s@.subrange(p as int, e as int)),
            acc == digits_val(s@.subrange(p as int, i as int)),
            0 <= acc < pow10((i - p) as nat),
            pow10(20) < u128::MAX,
        decreases e - i,
    {
        let ghost presub = s@.subrange(p as int, i as int);
        proof {
            assert(is_digit(s@[i as int])) by {
                assert(s@.subrange(p as int, e as int)[i - p] == s@[i as int]);
            }
            lemma_digits_val_bound(presub);
            assert(pow10((i - p) as nat) * 10 == pow10((i - p + 1) as nat)) by {
                assert(pow10((i - p + 1) as nat) == 10 * pow10((i - p) as nat));
            }
            assert(acc * 10 + 9 < pow10((i - p + 1) as nat)) by (nonlinear_arith)
                requires
                    0 <= acc < pow10((i - p) as nat),
                    pow10((i - p) as nat) * 10 == pow10((i - p + 1) as nat),
            ;
            assert(pow10((i - p + 1) as nat) <= pow10(20)) by {
                lemma_pow10_monotone((i - p + 1) as nat, 20);
            }
        }
        let d = char_to_digit(s[i]).unwrap();
        acc = acc * 10 + (d as u128);
        i = i + 1;
        proof {
            assert(s@.subrange(p as int, i as int).drop_last() =~= presub);
            assert(s@.subrange(p as int, i as int).last() == s@[i - 1]);
        }
    }
    assert(acc == digits_val(s@.subrange(p as int, e as int)));
    if acc > u64::MAX as u128 {
        return None;
    }
    Some((acc as u64, e + 1))
}

pub proof fn lemma_pow10_monotone(a: nat, b: nat)
    requires
        a <= b,
    ensures
        pow10(a) <= pow10(b),
        pow10(a) >= 1,
    decreases b,
{
    if b > 0 {
        if a == b {
            lemma_pow10_monotone((a - 1) as nat, (b - 1) as nat);
            assert(pow10(b) == 10 * pow10((b - 1) as nat));
            assert(pow10(a) == 10 * pow10((a - 1) as nat));
        } else {
            lemma_pow10_monotone(a, (b - 1) as nat);
            assert(pow10(b) == 10 * pow10((b - 1) as nat));
        }
    }
}

/// Round trip for decimal numerals: parsing a rendered numeral followed
/// by its terminator yields the value back and stops after the
/// terminator.
pub proof fn lemma_parse_decimal_of_digits(s: Seq<char>, p: int, v: u64, term: char)
    requires
        0 <= p,
        p + digits(v as nat).len() + 1 <= s.len(),
        s.subrange(p, p + digits(v as nat).len() + 1) =~= digits(v as nat) + seq![term],
        !is_digit(term),
    ensures
        spec_parse_decimal(s, p, term) == Some((v, p + digits(v as nat).len() + 1)),
{
    let d = digits(v as nat);
    let e = p + d.len();
    lemma_digits_all_digits(v as nat);
    lemma_digits_val(v as nat);
    lemma_pow10_20();
    lemma_digits_len(v as nat, 20);
    assert(s.subrange(p, e) =~= d) by {
        assert(forall|i: int|
            0 <= i < d.len() ==> s.subrange(p, p + d.len() + 1)[i] == #[trigger] s.subrange(
                p,
                e,
            )[i]);
    }
    assert(s[e] == term) by {
        assert(s.subrange(p, p + d.len() + 1)[d.len() as int] == s[e]);
    }
    lemma_scan_digits_exact(s, p, e);
}

/// Round trip for signed numerals.
pub proof fn lemma_parse_signed_of_digits(s: Seq<char>, p: int, v: i64, term: char)
    requires
        0 <= p,
        v > i64::MIN,
        p + signed_digits(v as int).len() + 1 <= s.len(),
        s.subrange(p, p + signed_digits(v as int).len() + 1) =~= signed_digits(v as int)
            + seq![term],
        !is_digit(term),
    ensures
        spec_parse_signed(s, p, term) == Some((v, p + signed_digits(v as int).len() + 1)),
{
    if v < 0 {
        let m = (-v) as u64;
        let d = digits(m as nat);
        assert(s[p] == '-') by {
            assert(s.subrange(p, p + signed_digits(v as int).len() + 1)[0] == s[p]);
        }
        assert(!is_digit('-'));
        let big = s.subrange(p, p + signed_digits(v as int).len() + 1);
        assert(s.subrange(p + 1, p + 1 + d.len() + 1) =~= d + seq![term]) by {
            assert forall|i: int| 0 <= i < d.len() + 1 implies s.subrange(
                p + 1,
                p + 1 + d.len() + 1,
            )[i] == (d + seq![term])[i] by {
                assert(s.subrange(p + 1, p + 1 + d.len() + 1)[i] == s[p + 1 + i]);
                assert(big[i + 1] == s[p + 1 + i]);
                assert(big[i + 1] == (signed_digits(v as int) + seq![term])[i + 1]);
                assert((signed_digits(v as int) + seq![term])[i + 1] == (d + seq![term])[i]);
            }
        }
        lemma_parse_decimal_of_digits(s, p + 1, m, term);
    } else {
        lemma_parse_decimal_of_digits(s, p, v as u64, term);
        assert(!is_digit('-'));
        assert(s[p] != '-') by {
            lemma_digits_all_digits(v as nat);
            assert(s.subrange(p, p + signed_digits(v as int).len() + 1)[0] == s[p]);
            assert(digits(v as nat)[0] == (digits(v as nat) + seq![term])[0]);
        }
    }
}

/// Parse of a signed decimal numeral: an optional '-', then a numeral
/// whose magnitude must fit in `i64` (the most negative value is never
/// rendered, and is rejected).
pub open spec fn spec_parse_signed(s: Seq<char>, p: int, term: char) -> Option<(i64, int)> {
    if p < s.len() && s[p] == '-' {
        match spec_parse_decimal(s, p + 1, term) {
            Some((m, e)) => if m <= i64::MAX as u64 {
                Some(((-(m as int)) as i64, e))
            } else {
                None
            },
            None => None,
        }
    } else {
        match spec_parse_decimal(s, p, term) {
            Some((m, e)) => if m <= i64::MAX as u64 {
                Some((m as i64, e))
            } else {
                None
            },
            None => None,
        }
    }
}

pub fn parse_signed(s: &Vec<char>, p: usize, term: char) -> (r: Option<(i64, usize)>)
    requires
        p <= s@.len(),
        !is_digit(term),
    ensures
        r matches Some(v) ==> spec_parse_signed(s@, p as int, term) == Some((v.0, v.1 as int))
            && v.1 <= s@.len(),
        r is None ==> spec_parse_signed(s@, p as int, term) is None,
{
    if p < s.len() && s[p] == '-' {
        match parse_decimal(s, p + 1, term) {
            Some((m, e)) => {
                if m <= i64::MAX as u64 {
                    Some((-(m as i64), e))
                } else {
                    None
                }
            },
            None => None,
        }
    } else {
        match parse_decimal(s, p, term) {
            Some((m, e)) => {
                if m <= i64::MAX as u64 {
                    Some((m as i64, e))
                } else {
                    None
                }
            },
            None => None,
        }
    }
}

/// Match of a literal at position `p`; the position after it on success.
pub open spec fn spec_expect(s: Seq<char>, p: int, lit: Seq<char>) -> Option<int> {
    if 0 <= p && p + lit.len() <= s.len() && s.subrange(p, p + lit.len()) =~= lit {
        Some(p + lit.len())
    } else {
        None
    }
}

pub fn expect_lit(s: &Vec<char>, p: usize, lit: &str) -> (r: Option<usize>)
    requires
        p <= s@.len(),
    ensures
        r matches Some(e) ==> spec_expect(s@, p as int, lit@) == Some(e as int) && e <= s@.len(),
        r is None ==> spec_expect(s@, p as int, lit@) is None,
{
    let n = lit.unicode_len();
    let slen = s.len();
    if n > slen - p {
        return None;
    }
    let mut i: usize = 0;
    while i < n
        invariant
            0 <= i <= n,
            n == lit@.len(),
            p + n <= slen,
            slen == s@.len(),
            forall|j: int| 0 <= j < i ==> s@[p + j] == lit@[j],
        decreases n - i,
    {
        if s[p + i] != lit.get_char(i) {
            assert(s@.subrange(p as int, p + lit@.len()) != lit@) by {
                assert(s@.subrange(p as int, p + lit@.len())[i as int] == s@[p + i]);
            }
            return None;
        }
        i = i + 1;
    }
    assert(s@.subrange(p as int, p + lit@.len()) =~= lit@);
    Some(p + n)
}

/// Take of `n` characters starting at `p`.
pub open spec fn spec_take(s: Seq<char>, p: int, n: int) -> Option<(Seq<char>, int)> {
    if 0 <= p && 0 <= n && p + n <= s.len() {
        Some((s.subrange(p, p + n), p + n))
    } else {
        None
    }
}

pub fn take_chars(s: &Vec<char>, p: usize, n: usize) -> (r: Option<(Vec<char>, usize)>)
    requires
        p <= s@.len(),
    ensures
        r matches Some(v) ==> spec_take(s@, p as int, n as int) == Some((v.0@, v.1 as int))
            && v.1 <= s@.len(),
        r is None ==> spec_take(s@, p as int, n as int) is None,
{
    let slen = s.len();
    if n > slen - p {
        return None;
    }
    let mut out: Vec<char> = Vec::new();
    let mut i: usize = 0;
    while i < n
        invariant
            0 <= i <= n,
            p + n <= slen,
            slen == s@.len(),
            out@ =~= s@.subrange(p as int, p + i),
        decreases n - i,
    {
        out.push(s[p + i]);
        i = i + 1;
        assert(out@ =~= s@.subrange(p as int, p + i));
    }
    Some((out, p + n))
}

} // verus!
