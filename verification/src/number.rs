//! Decimal integers: the `u32` parsing that `str::parse` performs, and the
//! decimal text that `to_string` writes.

use vstd::prelude::*;
use crate::text::string_push;

verus! {

/// Why a decimal integer was refused, as `std::num::IntErrorKind` names it.
#[derive(Clone, Copy, Debug, PartialEq, Eq, Structural)]
pub enum IntErrorKind {
    /// The text was empty.
    Empty,
    /// A character was not a decimal digit.
    InvalidDigit,
    /// The number does not fit in a `u32`.
    PosOverflow,
}

/// `c` is an ASCII decimal digit.
pub open spec fn is_digit(c: char) -> bool {
    '0' <= c && c <= '9'
}

/// The value of the digit `c`.
pub open spec fn digit_value(c: char) -> nat {
    (c as int - '0' as int) as nat
}

/// The digit character for `d < 10`.
pub open spec fn digit_char(d: nat) -> char {
    (d + '0' as int) as char
}

/// Reading the digits `s` after the value `acc` has been read, left to right,
/// with the first fault that a left-to-right reading meets.
pub open spec fn parse_digits(s: Seq<char>, acc: nat) -> Result<nat, IntErrorKind>
    decreases s.len(),
{
    if s.len() == 0 {
        Ok(acc)
    } else if !is_digit(s[0]) {
        Err(IntErrorKind::InvalidDigit)
    } else if acc * 10 + digit_value(s[0]) > u32::MAX {
        Err(IntErrorKind::PosOverflow)
    } else {
        parse_digits(s.drop_first(), acc * 10 + digit_value(s[0]))
    }
}

/// What `s.parse::<u32>()` gives: an optional leading `+`, then decimal digits.
pub open spec fn u32_parse(s: Seq<char>) -> Result<u32, IntErrorKind> {
    if s.len() == 0 {
        Err(IntErrorKind::Empty)
    } else if (s[0] == '+' || s[0] == '-') && s.len() == 1 {
        Err(IntErrorKind::InvalidDigit)
    } else {
        let digits = if s[0] == '+' { s.drop_first() } else { s };
        match parse_digits(digits, 0) {
            Ok(n) => Ok(n as u32),
            Err(e) => Err(e),
        }
    }
}

/// The decimal text of `n`, without sign or leading zeros.
pub open spec fn decimal(n: nat) -> Seq<char>
    decreases n,
{
    if n < 10 {
        seq![digit_char(n)]
    } else {
        decimal(n / 10).push(digit_char(n % 10))
    }
}

/// Parses the characters `s` as a `u32`, the way `str::parse::<u32>` does.
pub fn parse_u32(s: &Vec<char>) -> (r: Result<u32, IntErrorKind>)
    ensures
        r == u32_parse(s@),
{
    let n = s.len();
    if n == 0 {
        return Err(IntErrorKind::Empty);
    }
    if (s[0] == '+' || s[0] == '-') && n == 1 {
        return Err(IntErrorKind::InvalidDigit);
    }
    let start: usize = if s[0] == '+' { 1 } else { 0 };
    let ghost digits = s@.skip(start as int);
    assert(digits =~= (if s@[0] == '+' { s@.drop_first() } else { s@ }));
    let mut acc: u32 = 0;
    let mut i: usize = start;
    assert(s@.skip(i as int) =~= digits);
    while i < n
        invariant
            n == s@.len(),
            n > 0,
            !((s@[0] == '+' || s@[0] == '-') && n == 1),
            start <= i <= n,
            digits == s@.skip(start as int),
            digits == (if s@[0] == '+' { s@.drop_first() } else { s@ }),
            parse_digits(digits, 0) == parse_digits(s@.skip(i as int), acc as nat),
        decreases n - i,
    {
        let c = s[i];
        assert(s@.skip(i as int)[0] == c);
        assert(s@.skip(i as int).drop_first() =~= s@.skip(i + 1));
        if !('0' <= c && c <= '9') {
            return Err(IntErrorKind::InvalidDigit);
        }
        let d: u32 = (c as u32) - ('0' as u32);
        let next: u64 = (acc as u64) * 10 + (d as u64);
        if next > 4294967295u64 {
            return Err(IntErrorKind::PosOverflow);
        }
        acc = next as u32;
        i = i + 1;
    }
    assert(s@.skip(n as int).len() == 0);
    Ok(acc)
}

/// Appends the decimal text of `n` to `s`, as `n.to_string()` writes it.
pub fn push_decimal(s: &mut String, n: u64)
    ensures
        final(s)@ == old(s)@ + decimal(n as nat),
    decreases n,
{
    if n >= 10 {
        push_decimal(s, n / 10);
    }
    let d: u8 = (n % 10) as u8;
    let c: char = (d + 48u8) as char;
    assert(c == digit_char((n % 10) as nat));
    string_push(s, c);
    assert(s@ =~= old(s)@ + decimal(n as nat));
}

/// The decimal text of `n`.
pub fn decimal_string(n: u64) -> (r: String)
    ensures
        r@ == decimal(n as nat),
{
    let mut s = String::new();
    push_decimal(&mut s, n);
    assert(s@ =~= decimal(n as nat));
    s
}

proof fn lemma_parse_digits_push(s: Seq<char>, c: char, acc: nat)
    ensures
        parse_digits(s.push(c), acc) == (match parse_digits(s, acc) {
            Ok(v) => if !is_digit(c) {
                Err(IntErrorKind::InvalidDigit)
            } else if v * 10 + digit_value(c) > u32::MAX {
                Err(IntErrorKind::PosOverflow)
            } else {
                Ok(v * 10 + digit_value(c))
            },
            Err(e) => Err(e),
        }),
    decreases s.len(),
{
    if s.len() == 0 {
        assert(s.push(c).drop_first() =~= Seq::<char>::empty());
        assert(parse_digits(Seq::<char>::empty(), acc * 10 + digit_value(c)) == Ok::<
            nat,
            IntErrorKind,
        >(acc * 10 + digit_value(c)));
    } else {
        assert(s.push(c)[0] == s[0]);
        if is_digit(s[0]) && acc * 10 + digit_value(s[0]) <= u32::MAX {
            assert(s.push(c).drop_first() =~= s.drop_first().push(c));
            lemma_parse_digits_push(s.drop_first(), c, acc * 10 + digit_value(s[0]));
        }
    }
}

proof fn lemma_decimal_digits(n: nat)
    requires
        n <= u32::MAX,
    ensures
        parse_digits(decimal(n), 0) == Ok::<nat, IntErrorKind>(n),
        decimal(n).len() > 0,
        is_digit(decimal(n)[0]),
    decreases n,
{
    if n < 10 {
        assert(decimal(n).drop_first() =~= Seq::<char>::empty());
        assert(parse_digits(Seq::<char>::empty(), n) == Ok::<nat, IntErrorKind>(n));
    } else {
        lemma_decimal_digits(n / 10);
        lemma_parse_digits_push(decimal(n / 10), digit_char(n % 10), 0);
        assert((n / 10) * 10 + n % 10 == n);
    }
}

/// Reading back the decimal text of any `u32` gives the number again.
pub proof fn law_parse_decimal_roundtrip(n: u32)
    ensures
        u32_parse(decimal(n as nat)) == Ok::<u32, IntErrorKind>(n),
{
    lemma_decimal_digits(n as nat);
}

} // verus!
