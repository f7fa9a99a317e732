//! Numbers as text: decimal and hexadecimal digits (with zero padding, as
//! `{:0N}` and `{:0Nx}` print them) and the parsing of decimal integers with
//! the rules of `u64::from_str` and `i64::from_str`.

use vstd::prelude::*;

verus! {

// ---------------------------------------------------------------------------
// Digits
// ---------------------------------------------------------------------------

/// The digit character for `d` (`0`-`9`, then `a`-`f`).
pub open spec fn digit_char(d: nat) -> char {
    if d == 0 { '0' } else if d == 1 { '1' } else if d == 2 { '2' } else if d == 3 { '3' }
    else if d == 4 { '4' } else if d == 5 { '5' } else if d == 6 { '6' } else if d == 7 { '7' }
    else if d == 8 { '8' } else if d == 9 { '9' } else if d == 10 { 'a' } else if d == 11 { 'b' }
    else if d == 12 { 'c' } else if d == 13 { 'd' } else if d == 14 { 'e' } else { 'f' }
}

/// The decimal digits of `n`, without leading zeros (`0` for zero).
pub open spec fn decimal(n: nat) -> Seq<char>
    decreases n,
{
    if n < 10 {
        seq![digit_char(n)]
    } else {
        decimal(n / 10).push(digit_char(n % 10))
    }
}

/// The lower-case hexadecimal digits of `n`, without leading zeros.
pub open spec fn hexadecimal(n: nat) -> Seq<char>
    decreases n,
{
    if n < 16 {
        seq![digit_char(n)]
    } else {
        hexadecimal(n / 16).push(digit_char(n % 16))
    }
}

/// `digits` with `0`s in front up to `width` characters.
pub open spec fn zero_padded(digits: Seq<char>, width: nat) -> Seq<char> {
    if digits.len() >= width {
        digits
    } else {
        Seq::new((width - digits.len()) as nat, |i: int| '0') + digits
    }
}

/// A signed integer in decimal, with `-` before a negative one.
pub open spec fn signed_decimal(n: int) -> Seq<char> {
    if n < 0 {
        seq!['-'] + decimal((-n) as nat)
    } else {
        decimal(n as nat)
    }
}

/// The character of digit `d`.
pub fn digit_to_char(d: u64) -> (c: char)
    requires
        d < 16,
    ensures
        c == digit_char(d as nat),
{
    match d {
        0 => '0',
        1 => '1',
        2 => '2',
        3 => '3',
        4 => '4',
        5 => '5',
        6 => '6',
        7 => '7',
        8 => '8',
        9 => '9',
        10 => 'a',
        11 => 'b',
        12 => 'c',
        13 => 'd',
        14 => 'e',
        _ => 'f',
    }
}

/// Append the decimal digits of `n` to `out`.
pub fn push_decimal(out: &mut Vec<char>, n: u64)
    ensures
        final(out)@ == old(out)@ + decimal(n as nat),
    decreases n,
{
    if n >= 10 {
        push_decimal(out, n / 10);
    }
    let c = digit_to_char(n % 10);
    out.push(c);
    assert(final(out)@ =~= old(out)@ + decimal(n as nat));
}

/// Append the hexadecimal digits of `n` to `out`.
pub fn push_hexadecimal(out: &mut Vec<char>, n: u64)
    ensures
        final(out)@ == old(out)@ + hexadecimal(n as nat),
    decreases n,
{
    if n >= 16 {
        push_hexadecimal(out, n / 16);
    }
    let c = digit_to_char(n % 16);
    out.push(c);
    assert(final(out)@ =~= old(out)@ + hexadecimal(n as nat));
}

/// Append `digits` to `out` after enough `0`s to fill `width` characters.
pub fn push_zero_padded(out: &mut Vec<char>, digits: &Vec<char>, width: usize)
    ensures
        final(out)@ == old(out)@ + zero_padded(digits@, width as nat),
{
    let mut k: usize = digits.len();
    let ghost start = out@;
    while k < width
        invariant
            digits@.len() <= k,
            k <= width || k == digits@.len(),
            out@ == start + Seq::new((k - digits@.len()) as nat, |i: int| '0'),
        decreases width - k,
    {
        out.push('0');
        k = k + 1;
        assert(out@ =~= start + Seq::new((k - digits@.len()) as nat, |i: int| '0'));
    }
    let ghost mid = out@;
    let mut j: usize = 0;
    while j < digits.len()
        invariant
            j <= digits@.len(),
            out@ == mid + digits@.take(j as int),
        decreases digits@.len() - j,
    {
        out.push(digits[j]);
        j = j + 1;
        assert(out@ =~= mid + digits@.take(j as int));
    }
    assert(digits@.take(j as int) =~= digits@);
    if digits.len() >= width {
        assert(out@ =~= start + digits@);
    } else {
        assert(out@ =~= start + zero_padded(digits@, width as nat));
    }
}

/// Append `n` in decimal, zero-padded to `width` characters (`{:0width}`).
pub fn push_padded_decimal(out: &mut Vec<char>, n: u64, width: usize)
    ensures
        final(out)@ == old(out)@ + zero_padded(decimal(n as nat), width as nat),
{
    let mut digits: Vec<char> = Vec::new();
    push_decimal(&mut digits, n);
    assert(digits@ =~= decimal(n as nat));
    push_zero_padded(out, &digits, width);
}

/// Append `n` in lower-case hexadecimal, zero-padded to `width` characters
/// (`{:0widthx}`).
pub fn push_padded_hexadecimal(out: &mut Vec<char>, n: u64, width: usize)
    ensures
        final(out)@ == old(out)@ + zero_padded(hexadecimal(n as nat), width as nat),
{
    let mut digits: Vec<char> = Vec::new();
    push_hexadecimal(&mut digits, n);
    assert(digits@ =~= hexadecimal(n as nat));
    push_zero_padded(out, &digits, width);
}

/// Append `n` in decimal, with `-` before a negative one.
pub fn push_signed_decimal(out: &mut Vec<char>, n: i64)
    ensures
        final(out)@ == old(out)@ + signed_decimal(n as int),
{
    if n < 0 {
        out.push('-');
        let magnitude: u64 = if n == i64::MIN {
            9223372036854775808u64
        } else {
            (-n) as u64
        };
        let ghost mid = out@;
        push_decimal(out, magnitude);
        assert(out@ =~= old(out)@ + signed_decimal(n as int));
    } else {
        push_decimal(out, n as u64);
    }
}

// ---------------------------------------------------------------------------
// Parsing
// ---------------------------------------------------------------------------

/// Whether `c` is an ASCII decimal digit.
pub open spec fn is_digit(c: char) -> bool {
    '0' <= c && c <= '9'
}

/// The value of the ASCII digit `c`.
pub open spec fn digit_value(c: char) -> nat {
    (c as u32 - '0' as u32) as nat
}

/// Whether every character of `s` is an ASCII decimal digit.
pub open spec fn all_digits(s: Seq<char>) -> bool {
    forall|i: int| 0 <= i < s.len() ==> is_digit(#[trigger] s[i])
}

/// The value of a string of decimal digits.
pub open spec fn digits_value(s: Seq<char>) -> nat
    decreases s.len(),
{
    if s.len() == 0 {
        0
    } else {
        digits_value(s.drop_last()) * 10 + digit_value(s.last())
    }
}

/// The value of a non-empty digit string `b` if it is at most `limit`.
pub open spec fn bounded_digits(b: Seq<char>, limit: nat) -> Option<nat> {
    if b.len() > 0 && all_digits(b) && digits_value(b) <= limit {
        Some(digits_value(b))
    } else {
        None
    }
}

/// `s` parsed as `u64::from_str` does: an optional `+`, then one or more
/// ASCII digits, with a value that fits in 64 bits.
pub open spec fn parsed_u64(s: Seq<char>) -> Option<u64> {
    let body = if s.len() > 0 && s[0] == '+' { s.drop_first() } else { s };
    match bounded_digits(body, u64::MAX as nat) {
        Some(v) => Some(v as u64),
        None => None,
    }
}

/// `s` parsed as `i64::from_str` does: an optional `+` or `-`, then one or
/// more ASCII digits, with a value in the range of `i64`.
pub open spec fn parsed_i64(s: Seq<char>) -> Option<i64> {
    if s.len() > 0 && s[0] == '-' {
        match bounded_digits(s.drop_first(), 0x8000_0000_0000_0000nat) {
            Some(v) => Some((-v) as i64),
            None => None,
        }
    } else {
        let body = if s.len() > 0 && s[0] == '+' { s.drop_first() } else { s };
        match bounded_digits(body, i64::MAX as nat) {
            Some(v) => Some(v as i64),
            None => None,
        }
    }
}

proof fn lemma_digits_value_grows(s: Seq<char>, j: int, k: int)
    requires
        0 <= j <= k <= s.len(),
    ensures
        digits_value(s.take(j)) <= digits_value(s.take(k)),
    decreases k - j,
{
    if j < k {
        lemma_digits_value_grows(s, j, k - 1);
        assert(s.take(k).drop_last() =~= s.take(k - 1));
    }
}

/// The value of the digits `cs[from..]` when they are all digits, there is
/// at least one, and the value is at most `limit`.
fn bounded_digits_from(cs: &[char], from: usize, limit: u64) -> (value: Option<u64>)
    requires
        from <= cs@.len(),
    ensures
        value matches Some(v) ==> bounded_digits(cs@.skip(from as int), limit as nat) == Some(v as nat),
        value is None ==> bounded_digits(cs@.skip(from as int), limit as nat) is None,
{
    let ghost body = cs@.skip(from as int);
    if from >= cs.len() {
        return None;
    }
    let mut acc: u64 = 0;
    let mut i: usize = from;
    assert(body.take(0) =~= Seq::<char>::empty());
    while i < cs.len()
        invariant
            from <= i <= cs@.len(),
            body == cs@.skip(from as int),
            all_digits(body.take(i - from)),
            acc as nat == digits_value(body.take(i - from)),
            acc <= limit,
        decreases cs@.len() - i,
    {
        let c = cs[i];
        assert(body[i - from] == c);
        if !('0' <= c && c <= '9') {
            assert(!is_digit(body[i - from]));
            return None;
        }
        let d: u64 = (c as u32 - '0' as u32) as u64;
        let next: u128 = (acc as u128) * 10 + (d as u128);
        assert(body.take(i - from + 1).drop_last() =~= body.take(i - from));
        assert(digits_value(body.take(i - from + 1)) == next);
        if next > limit as u128 {
            proof {
                lemma_digits_value_grows(body, i - from + 1, body.len() as int);
                assert(body.take(body.len() as int) =~= body);
            }
            return None;
        }
        acc = next as u64;
        i = i + 1;
        assert(all_digits(body.take(i - from))) by {
            assert forall|k: int| 0 <= k < body.take(i - from).len() implies is_digit(
                #[trigger] body.take(i - from)[k],
            ) by {
                if k < i - from - 1 {
                    assert(body.take(i - from)[k] == body.take(i - from - 1)[k]);
                }
            }
        }
    }
    assert(body.take(i - from) =~= body);
    Some(acc)
}

/// Parse the characters `cs` as `u64::from_str` does.
pub fn parse_u64_chars(cs: &[char]) -> (value: Option<u64>)
    ensures
        value == parsed_u64(cs@),
{
    let from: usize = if cs.len() > 0 && cs[0] == '+' { 1 } else { 0 };
    assert(cs@.skip(from as int) =~= if cs@.len() > 0 && cs@[0] == '+' { cs@.drop_first() } else { cs@ });
    bounded_digits_from(cs, from, u64::MAX)
}

/// Parse `s` as `u64::from_str` does.
pub fn parse_u64(s: &str) -> (value: Option<u64>)
    ensures
        value == parsed_u64(s@),
{
    let cs = crate::text::chars_of(s);
    parse_u64_chars(cs.as_slice())
}

/// Parse `s` as `i64::from_str` does.
pub fn parse_i64(s: &str) -> (value: Option<i64>)
    ensures
        value == parsed_i64(s@),
{
    let cs = crate::text::chars_of(s);
    if cs.len() > 0 && cs[0] == '-' {
        assert(cs@.skip(1) =~= cs@.drop_first());
        let limit: u64 = 0x8000_0000_0000_0000u64;
        match bounded_digits_from(cs.as_slice(), 1, limit) {
            Some(v) => {
                if v == limit {
                    Some(i64::MIN)
                } else {
                    Some(-(v as i64))
                }
            },
            None => None,
        }
    } else {
        let from: usize = if cs.len() > 0 && cs[0] == '+' { 1 } else { 0 };
        assert(cs@.skip(from as int) =~= if cs@.len() > 0 && cs@[0] == '+' { cs@.drop_first() } else { cs@ });
        match bounded_digits_from(cs.as_slice(), from, i64::MAX as u64) {
            Some(v) => Some(v as i64),
            None => None,
        }
    }
}

} // verus!
