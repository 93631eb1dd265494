//! Decimal rendering and parsing of identifiers and other unsigned numbers.

use vstd::prelude::*;
use vstd::arithmetic::div_mod::lemma_fundamental_div_mod;

verus! {

/// The character for one decimal digit value.
pub open spec fn digit_char(d: int) -> char {
    if d == 0 {
        '0'
    } else if d == 1 {
        '1'
    } else if d == 2 {
        '2'
    } else if d == 3 {
        '3'
    } else if d == 4 {
        '4'
    } else if d == 5 {
        '5'
    } else if d == 6 {
        '6'
    } else if d == 7 {
        '7'
    } else if d == 8 {
        '8'
    } else {
        '9'
    }
}

/// The decimal value of a character, or `-1` when it is not a decimal digit.
pub open spec fn digit_val(c: char) -> int {
    if c == '0' {
        0
    } else if c == '1' {
        1
    } else if c == '2' {
        2
    } else if c == '3' {
        3
    } else if c == '4' {
        4
    } else if c == '5' {
        5
    } else if c == '6' {
        6
    } else if c == '7' {
        7
    } else if c == '8' {
        8
    } else if c == '9' {
        9
    } else {
        -1
    }
}

/// Whether a character is a decimal digit.
pub open spec fn is_digit(c: char) -> bool {
    digit_val(c) >= 0
}

/// The decimal rendering of a number, without sign or padding.
pub open spec fn dec(n: u128) -> Seq<char>
    decreases n,
{
    if n < 10 {
        seq![digit_char(n as int)]
    } else {
        dec((n / 10) as u128).push(digit_char((n % 10) as int))
    }
}

/// Every character of a decimal rendering is a digit, and a rendering is
/// never empty.
pub proof fn lemma_dec_digits(n: u128)
    ensures
        dec(n).len() >= 1,
        forall|k: int| 0 <= k < dec(n).len() ==> is_digit(#[trigger] dec(n)[k]),
    decreases n,
{
    if n >= 10 {
        lemma_dec_digits((n / 10) as u128);
    }
}

/// The index just past the run of digits that starts at `i`.
pub open spec fn digits_end(s: Seq<char>, i: int) -> int
    decreases s.len() - i,
{
    if 0 <= i < s.len() && is_digit(s[i]) {
        digits_end(s, i + 1)
    } else {
        i
    }
}

/// The value of the digit characters `s[i..j)`.
pub open spec fn dec_value(s: Seq<char>, i: int, j: int) -> int
    decreases j - i,
{
    if i >= j {
        0
    } else {
        dec_value(s, i, j - 1) * 10 + digit_val(s[j - 1])
    }
}

/// What parsing a decimal number at position `i` yields: the value and the
/// position just past its digits. Parsing fails when no digit is present or
/// the value does not fit the identifier width.
pub open spec fn parse_dec_at(s: Seq<char>, i: int) -> Option<(u128, int)> {
    let j = digits_end(s, i);
    if j == i {
        None
    } else if dec_value(s, i, j) > u128::MAX {
        None
    } else {
        Some((dec_value(s, i, j) as u128, j))
    }
}

proof fn lemma_digits_end_of_run(s: Seq<char>, i: int, j: int)
    requires
        0 <= i <= j <= s.len(),
        forall|t: int| i <= t < j ==> is_digit(#[trigger] s[t]),
        j == s.len() || !is_digit(s[j]),
    ensures
        digits_end(s, i) == j,
    decreases j - i,
{
    if i < j {
        lemma_digits_end_of_run(s, i + 1, j);
    }
}

proof fn lemma_dec_value_nonneg(s: Seq<char>, i: int, j: int)
    requires
        forall|t: int| i <= t < j ==> is_digit(#[trigger] s[t]),
    ensures
        dec_value(s, i, j) >= 0,
    decreases j - i,
{
    if i < j {
        lemma_dec_value_nonneg(s, i, j - 1);
        let x = dec_value(s, i, j - 1);
        assert(x * 10 >= 0) by (nonlinear_arith)
            requires
                x >= 0,
        ;
    }
}

proof fn lemma_dec_value_monotone(s: Seq<char>, i: int, k: int, j: int)
    requires
        i <= k <= j,
        forall|t: int| i <= t < j ==> is_digit(#[trigger] s[t]),
    ensures
        dec_value(s, i, k) <= dec_value(s, i, j),
    decreases j - k,
{
    if k < j {
        lemma_dec_value_monotone(s, i, k, j - 1);
        lemma_dec_value_nonneg(s, i, j - 1);
        let x = dec_value(s, i, j - 1);
        assert(x * 10 >= x) by (nonlinear_arith)
            requires
                x >= 0,
        ;
    }
}

proof fn lemma_dec_value_of_dec(s: Seq<char>, i: int, n: u128)
    requires
        0 <= i,
        i + dec(n).len() <= s.len(),
        s.subrange(i, i + dec(n).len()) == dec(n),
    ensures
        dec_value(s, i, i + dec(n).len()) == n,
    decreases n,
{
    if n < 10 {
        assert(s[i] == s.subrange(i, i + dec(n).len())[0]);
        assert(s[i] == digit_char(n as int));
        assert(dec_value(s, i, i + 1) == dec_value(s, i, i) * 10 + digit_val(s[i]));
        assert(digit_val(digit_char(n as int)) == n);
    } else {
        let m = (n / 10) as u128;
        let last = i + dec(n).len() - 1;
        assert(m < n) by (nonlinear_arith)
            requires
                n >= 10,
                m == n / 10,
        ;
        assert(dec(n) == dec(m).push(digit_char((n % 10) as int)));
        assert(dec(n).len() == dec(m).len() + 1);
        assert(s.subrange(i, i + dec(m).len() as int) =~= dec(m)) by {
            assert forall|k: int| 0 <= k < dec(m).len() implies s.subrange(
                i,
                i + dec(m).len() as int,
            )[k] == dec(m)[k] by {
                assert(s[i + k] == s.subrange(i, i + dec(n).len())[k]);
            }
        }
        lemma_dec_value_of_dec(s, i, m);
        assert(dec_value(s, i, last) == m);
        assert(s[last] == s.subrange(i, i + dec(n).len())[dec(n).len() - 1]);
        assert(s[last] == digit_char((n % 10) as int));
        assert(0 <= n % 10 < 10);
        assert(digit_val(digit_char((n % 10) as int)) == n % 10);
        assert(dec_value(s, i, i + dec(n).len()) == dec_value(s, i, last) * 10 + digit_val(
            s[last],
        ));
        lemma_fundamental_div_mod(n as int, 10);
        assert(n == 10 * (n as int / 10) + n as int % 10);
    }
}

/// Parsing picks up exactly what the decimal rendering put down, provided
/// the rendering is not followed immediately by another digit.
pub proof fn lemma_parse_of_dec(s: Seq<char>, i: int, n: u128)
    requires
        0 <= i,
        i + dec(n).len() <= s.len(),
        s.subrange(i, i + dec(n).len()) == dec(n),
        i + dec(n).len() == s.len() || !is_digit(s[i + dec(n).len()]),
    ensures
        parse_dec_at(s, i) == Some((n, i + dec(n).len())),
{
    let j = i + dec(n).len();
    lemma_dec_digits(n);
    assert forall|t: int| i <= t < j implies is_digit(#[trigger] s[t]) by {
        assert(s[t] == s.subrange(i, j)[t - i]);
    }
    lemma_digits_end_of_run(s, i, j);
    lemma_dec_value_of_dec(s, i, n);
}

/// A successful decimal parse makes progress and stays inside the text.
pub proof fn lemma_parse_dec_some(s: Seq<char>, i: int)
    requires
        0 <= i <= s.len(),
        parse_dec_at(s, i) is Some,
    ensures
        parse_dec_at(s, i) matches Some(p) && i < p.1 <= s.len(),
{
    lemma_digits_end_bounds(s, i);
}

/// Returns the character of one digit value.
fn digit_to_char(d: u8) -> (c: char)
    requires
        d < 10,
    ensures
        c == digit_char(d as int),
{
    match d {
        0 => '0',
        1 => '1',
        2 => '2',
        3 => '3',
        4 => '4',
        5 => '5',
        6 => '6',
        7 => '7',
        8 => '8',
        _ => '9',
    }
}

/// Returns the value of a digit character, or nothing for any other
/// character.
pub fn char_to_digit(c: char) -> (r: Option<u8>)
    ensures
        (r is Some) == is_digit(c),
        r matches Some(d) ==> d as int == digit_val(c),
{
    match c {
        '0' => Some(0),
        '1' => Some(1),
        '2' => Some(2),
        '3' => Some(3),
        '4' => Some(4),
        '5' => Some(5),
        '6' => Some(6),
        '7' => Some(7),
        '8' => Some(8),
        '9' => Some(9),
        _ => None,
    }
}

/// Appends the decimal rendering of `n`.
pub fn push_dec(n: u128, out: &mut Vec<char>)
    ensures
        final(out)@ == old(out)@ + dec(n),
    decreases n,
{
    if n >= 10 {
        push_dec(n / 10, out);
    }
    out.push(digit_to_char((n % 10) as u8));
    proof {
        assert(out@ =~= old(out)@ + dec(n));
    }
}

/// Renders a number in decimal.
pub fn u128_to_string(n: u128) -> (s: String)
    ensures
        s@ == dec(n),
{
    let mut v: Vec<char> = Vec::new();
    push_dec(n, &mut v);
    crate::codec::chars_to_string(&v)
}

/// Parses a decimal number at position `i` of `s`.
pub fn parse_u128(s: &Vec<char>, i: usize) -> (r: Option<(u128, usize)>)
    requires
        i <= s@.len(),
    ensures
        r matches Some(p) ==> parse_dec_at(s@, i as int) == Some((p.0, p.1 as int)),
        r is None ==> parse_dec_at(s@, i as int) is None,
{
    let mut k: usize = i;
    let mut acc: u128 = 0;
    loop
        invariant
            i <= k <= s@.len(),
            forall|t: int| i <= t < k ==> is_digit(#[trigger] s@[t]),
            acc == dec_value(s@, i as int, k as int),
        ensures
            i <= k <= s@.len(),
            forall|t: int| i <= t < k ==> is_digit(#[trigger] s@[t]),
            acc == dec_value(s@, i as int, k as int),
            k == s@.len() || !is_digit(s@[k as int]),
        decreases s@.len() - k,
    {
        if k == s.len() {
            break ;
        }
        let c = s[k];
        match char_to_digit(c) {
            None => {
                break ;
            },
            Some(d) => {
                proof {
                    lemma_dec_value_nonneg(s@, i as int, k as int);
                }
                let wide = acc.checked_mul(10);
                let next = match wide {
                    Some(w) => w.checked_add(d as u128),
                    None => None,
                };
                match next {
                    Some(v) => {
                        acc = v;
                    },
                    None => {
                        // The digits read so far do not fit; the full run can
                        // only be larger, so parsing fails.
                        proof {
                            let jend = digits_end(s@, i as int);
                            assert(is_digit(s@[k as int]));
                            lemma_digits_end_prefix(s@, i as int, (k + 1) as int);
                            lemma_digits_end_bounds(s@, (k + 1) as int);
                            assert forall|t: int| i <= t < jend implies is_digit(
                                #[trigger] s@[t],
                            ) by {
                                if t >= k + 1 {
                                    assert(digits_end(s@, (k + 1) as int) == jend);
                                }
                            }
                            lemma_dec_value_monotone(s@, i as int, (k + 1) as int, jend);
                            assert(dec_value(s@, i as int, (k + 1) as int) == acc * 10 + d);
                        }
                        return None;
                    },
                }
                k = k + 1;
            },
        }
    }
    // The digit run ends exactly at k.
    proof {
        lemma_digits_end_of_run(s@, i as int, k as int);
    }
    if k == i {
        None
    } else {
        Some((acc, k))
    }
}

/// The digit run starting at `i` reaches at least to `k` when everything
/// before `k` is a digit.
proof fn lemma_digits_end_prefix(s: Seq<char>, i: int, k: int)
    requires
        0 <= i <= k <= s.len(),
        forall|t: int| i <= t < k ==> is_digit(#[trigger] s[t]),
    ensures
        digits_end(s, i) >= k,
        digits_end(s, i) == digits_end(s, k),
    decreases k - i,
{
    if i < k {
        lemma_digits_end_prefix(s, i + 1, k);
    } else {
        lemma_digits_end_bounds(s, i);
    }
}

/// Everything in the digit run is a digit, and the run stays inside `s`.
proof fn lemma_digits_end_bounds(s: Seq<char>, i: int)
    requires
        0 <= i <= s.len(),
    ensures
        i <= digits_end(s, i) <= s.len(),
        forall|t: int| i <= t < digits_end(s, i) ==> is_digit(#[trigger] s[t]),
    decreases s.len() - i,
{
    if i < s.len() && is_digit(s[i]) {
        lemma_digits_end_bounds(s, i + 1);
    }
}

} // verus!
