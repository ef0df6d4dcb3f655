//! Decimal rendering and parsing of line numbers and counts, and the
//! base-ten bucket used by the coverage display.

use vstd::prelude::*;

verus! {

pub open spec fn digit_char(d: int) -> char {
    if d == 0 {
        '0'
    } else if d == 1 {
        '1'
    } else if d == 2 {
        '2'
    } else if d == 3 {
        '3'
    } else if d == 4 {
        '4'
    } else if d == 5 {
        '5'
    } else if d == 6 {
        '6'
    } else if d == 7 {
        '7'
    } else if d == 8 {
        '8'
    } else {
        '9'
    }
}

/// The decimal digit string of a non-negative number, most significant first.
pub open spec fn spec_dec(n: int) -> Seq<char>
    decreases n,
{
    if n < 10 {
        seq![digit_char(n)]
    } else {
        spec_dec(n / 10) + seq![digit_char(n % 10)]
    }
}

/// The decimal rendering of a signed number: a minus sign before the digits
/// of its magnitude.
pub open spec fn spec_dec_i64(n: int) -> Seq<char> {
    if n < 0 {
        seq!['-'] + spec_dec(-n)
    } else {
        spec_dec(n)
    }
}

fn digit_of(d: u64) -> (c: char)
    requires
        d < 10,
    ensures
        c == digit_char(d as int),
{
    if d == 0 {
        '0'
    } else if d == 1 {
        '1'
    } else if d == 2 {
        '2'
    } else if d == 3 {
        '3'
    } else if d == 4 {
        '4'
    } else if d == 5 {
        '5'
    } else if d == 6 {
        '6'
    } else if d == 7 {
        '7'
    } else if d == 8 {
        '8'
    } else {
        '9'
    }
}

/// Appends the decimal digits of `n` to `out`.
pub fn push_dec(out: &mut Vec<char>, n: u64)
    ensures
        final(out)@ == old(out)@ + spec_dec(n as int),
    decreases n,
{
    if n < 10 {
        out.push(digit_of(n));
    } else {
        push_dec(out, n / 10);
        out.push(digit_of(n % 10));
    }
}

/// Appends the decimal rendering of a signed number to `out`.
pub fn push_dec_i64(out: &mut Vec<char>, n: i64)
    requires
        n > i64::MIN,
    ensures
        final(out)@ == old(out)@ + spec_dec_i64(n as int),
{
    if n < 0 {
        out.push('-');
        push_dec(out, (-n) as u64);
    } else {
        push_dec(out, n as u64);
    }
}

pub open spec fn is_digit(c: char) -> bool {
    c == '0' || c == '1' || c == '2' || c == '3' || c == '4' || c == '5' || c == '6' || c == '7'
        || c == '8' || c == '9'
}

pub open spec fn digit_val(c: char) -> int {
    if c == '0' {
        0
    } else if c == '1' {
        1
    } else if c == '2' {
        2
    } else if c == '3' {
        3
    } else if c == '4' {
        4
    } else if c == '5' {
        5
    } else if c == '6' {
        6
    } else if c == '7' {
        7
    } else if c == '8' {
        8
    } else {
        9
    }
}

pub open spec fn all_digits(s: Seq<char>) -> bool {
    forall|i: int| 0 <= i < s.len() ==> is_digit(#[trigger] s[i])
}

/// The value of a digit string read in base ten.
pub open spec fn digits_value(s: Seq<char>) -> int
    decreases s.len(),
{
    if s.len() == 0 {
        0
    } else {
        digits_value(s.drop_last()) * 10 + digit_val(s.last())
    }
}

/// What parsing a decimal `u32` yields: the value of a non-empty all-digit
/// string when it fits, nothing otherwise.
pub open spec fn spec_parse_u32(s: Seq<char>) -> Option<u32> {
    if s.len() > 0 && all_digits(s) && digits_value(s) <= u32::MAX {
        Some(digits_value(s) as u32)
    } else {
        None
    }
}

proof fn lemma_digits_value_mono(s: Seq<char>, i: int)
    requires
        0 <= i <= s.len(),
        all_digits(s),
    ensures
        digits_value(s) >= digits_value(s.take(i)),
    decreases s.len() - i,
{
    if i < s.len() {
        lemma_digits_value_mono(s, i + 1);
        assert(s.take(i + 1).drop_last() =~= s.take(i));
        assert(digits_value(s.take(i + 1)) == digits_value(s.take(i)) * 10 + digit_val(
            s[i],
        ));
        assert(digit_val(s[i]) >= 0);
        assert(digits_value(s.take(i)) >= 0) by {
            lemma_digits_value_nonneg(s.take(i));
        }
    } else {
        assert(s.take(i) =~= s);
    }
}

proof fn lemma_digits_value_nonneg(s: Seq<char>)
    ensures
        digits_value(s) >= 0,
    decreases s.len(),
{
    if s.len() > 0 {
        lemma_digits_value_nonneg(s.drop_last());
    }
}

fn char_digit(c: char) -> (r: Option<u32>)
    ensures
        r is Some <==> is_digit(c),
        r is Some ==> r->0 == digit_val(c) && r->0 < 10,
{
    if c == '0' {
        Some(0)
    } else if c == '1' {
        Some(1)
    } else if c == '2' {
        Some(2)
    } else if c == '3' {
        Some(3)
    } else if c == '4' {
        Some(4)
    } else if c == '5' {
        Some(5)
    } else if c == '6' {
        Some(6)
    } else if c == '7' {
        Some(7)
    } else if c == '8' {
        Some(8)
    } else if c == '9' {
        Some(9)
    } else {
        None
    }
}

/// Parses a non-empty, all-digit string as a base-ten `u32`.
pub fn parse_u32(s: &Vec<char>) -> (r: Option<u32>)
    ensures
        r == spec_parse_u32(s@),
{
    if s.len() == 0 {
        return None;
    }
    let mut acc: u64 = 0;
    let mut i: usize = 0;
    while i < s.len()
        invariant
            0 < s@.len(),
            i <= s@.len(),
            all_digits(s@.take(i as int)),
            acc == digits_value(s@.take(i as int)),
            acc <= u32::MAX,
        decreases s.len() - i,
    {
        let c = s[i];
        let d = match char_digit(c) {
            Some(d) => d,
            None => {
                return None;
            },
        };
        let wide: u64 = acc * 10 + (d as u64);
        proof {
            assert(s@.take(i + 1).drop_last() =~= s@.take(i as int));
            assert(digits_value(s@.take(i + 1)) == acc * 10 + digit_val(s@[i as int]));
        }
        if wide > u32::MAX as u64 {
            proof {
                if all_digits(s@) {
                    lemma_digits_value_mono(s@, i + 1);
                }
            }
            return None;
        }
        acc = wide;
        i += 1;
    }
    proof {
        assert(s@.take(s@.len() as int) =~= s@);
    }
    Some(acc as u32)
}

/// Ten to the given power.
pub open spec fn pow10(e: nat) -> int
    decreases e,
{
    if e == 0 {
        1
    } else {
        10 * pow10((e - 1) as nat)
    }
}

/// The number of decimal digits of `n`.
pub open spec fn dec_len(n: int) -> int {
    spec_dec(n).len() as int
}

pub proof fn lemma_dec_len(n: int)
    requires
        n >= 0,
    ensures
        dec_len(n) >= 1,
        n < 10 ==> dec_len(n) == 1,
        n >= 10 ==> dec_len(n) == dec_len(n / 10) + 1,
    decreases n,
{
}

/// The digit count places `n` between two consecutive powers of ten: the
/// floor of its base-ten logarithm is `dec_len(n) - 1`.
pub proof fn lemma_dec_len_pow10(n: int)
    requires
        n >= 1,
    ensures
        pow10((dec_len(n) - 1) as nat) <= n < pow10(dec_len(n) as nat),
    decreases n,
{
    lemma_dec_len(n);
    if n < 10 {
    } else {
        lemma_dec_len_pow10(n / 10);
        lemma_dec_len(n / 10);
        assert(pow10(dec_len(n / 10) as nat) == 10 * pow10((dec_len(n / 10) - 1) as nat));
    }
}

/// A number below ten to the `k` has at most `k` digits.
pub proof fn lemma_dec_len_le(n: int, k: int)
    requires
        0 <= n,
        1 <= k,
        n < pow10(k as nat),
    ensures
        dec_len(n) <= k,
    decreases n,
{
    if n >= 10 {
        assert(pow10(k as nat) == 10 * pow10((k - 1) as nat));
        assert(n / 10 < pow10((k - 1) as nat));
        assert(pow10((k - 1) as nat) >= 1) by {
            lemma_pow10_pos((k - 1) as nat);
        }
        lemma_dec_len_le(n / 10, k - 1);
        lemma_dec_len(n);
    }
}

pub proof fn lemma_pow10_pos(e: nat)
    ensures
        pow10(e) >= 1,
    decreases e,
{
    if e > 0 {
        lemma_pow10_pos((e - 1) as nat);
    }
}

/// The coverage display bucket of a positive count: the floor of its
/// base-ten logarithm.
pub fn log10_floor(x: u32) -> (r: u32)
    requires
        x >= 1,
    ensures
        r as int == dec_len(x as int) - 1,
        pow10(r as nat) <= x < pow10((r + 1) as nat),
{
    proof {
        assert(pow10(10) == 10000000000) by {
            reveal_with_fuel(pow10, 11);
        }
        lemma_dec_len_le(x as int, 10);
        lemma_dec_len(x as int);
    }
    let mut b: u32 = 0;
    let mut m: u32 = x;
    while m >= 10
        invariant
            m >= 1,
            dec_len(x as int) == dec_len(m as int) + b,
            b + 1 <= dec_len(x as int) <= 10,
        decreases m,
    {
        proof {
            lemma_dec_len(m as int);
            lemma_dec_len((m / 10) as int);
        }
        m = m / 10;
        b = b + 1;
    }
    proof {
        lemma_dec_len(m as int);
        lemma_dec_len_pow10(x as int);
    }
    b
}

} // verus!
