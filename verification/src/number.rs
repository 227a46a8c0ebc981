//! Decimal notation: writing integers and reading them back.
use vstd::prelude::*;

use crate::text;

verus! {

/// The character of a decimal digit.
pub open spec fn digit_char(d: nat) -> char {
    (('0' as u32) + d) as char
}

/// The value of a digit character.
pub open spec fn digit_value(c: char) -> nat {
    ((c as u32) - ('0' as u32)) as nat
}

/// A natural number in decimal notation, without leading zeros.
pub open spec fn decimal(n: nat) -> Seq<char>
    decreases n,
{
    if n < 10 {
        seq![digit_char(n)]
    } else {
        decimal(n / 10).push(digit_char(n % 10))
    }
}

/// An integer in decimal notation, with a minus sign where it is negative.
pub open spec fn signed(i: int) -> Seq<char> {
    if i < 0 {
        seq!['-'] + decimal((-i) as nat)
    } else {
        decimal(i as nat)
    }
}

/// Every character is a decimal digit, and there is at least one.
pub open spec fn digits(s: Seq<char>) -> bool {
    &&& s.len() > 0
    &&& forall|i: int| 0 <= i < s.len() ==> text::digit(#[trigger] s[i])
}

/// The number that a sequence of digits denotes.
pub open spec fn value(s: Seq<char>) -> nat
    decreases s.len(),
{
    if s.len() == 0 {
        0
    } else {
        value(s.drop_last()) * 10 + digit_value(s.last())
    }
}

/// The digits of a number without its sign, where the sign is `+` or absent.
pub open spec fn unsigned_digits(s: Seq<char>) -> Seq<char> {
    if s.len() > 0 && s[0] == '+' {
        s.skip(1)
    } else {
        s
    }
}

/// Reads a natural number: an optional `+`, then digits, at most `max`.
pub open spec fn parse_unsigned(s: Seq<char>, max: nat) -> Option<nat> {
    let d = unsigned_digits(s);
    if digits(d) && value(d) <= max {
        Some(value(d))
    } else {
        None
    }
}

/// Reads an integer: an optional sign, then digits, within the range of `i64`.
pub open spec fn parse_signed(s: Seq<char>) -> Option<int> {
    if s.len() > 0 && s[0] == '-' {
        let d = s.skip(1);
        if digits(d) && value(d) <= 0x8000_0000_0000_0000 {
            Some(-(value(d) as int))
        } else {
            None
        }
    } else {
        match parse_unsigned(s, i64::MAX as nat) {
            Some(n) => Some(n as int),
            None => None,
        }
    }
}

proof fn lemma_value_monotonic(s: Seq<char>, i: int)
    requires
        0 <= i <= s.len(),
    ensures
        value(s.take(i)) <= value(s),
    decreases s.len(),
{
    if i == s.len() {
        assert(s.take(i) =~= s);
    } else {
        lemma_value_monotonic(s.drop_last(), i);
        assert(s.drop_last().take(i) =~= s.take(i));
    }
}

/// The decimal notation of a natural number is made of digits, and denotes it.
pub proof fn law_decimal_is_digits(n: nat)
    ensures
        digits(decimal(n)),
        value(decimal(n)) == n,
    decreases n,
{
    if n < 10 {
        assert(decimal(n).drop_last() =~= Seq::<char>::empty());
        assert(value(decimal(n).drop_last()) == 0);
    } else {
        law_decimal_is_digits(n / 10);
        let d = decimal(n);
        assert(d.drop_last() =~= decimal(n / 10));
        assert forall|i: int| 0 <= i < d.len() implies text::digit(#[trigger] d[i]) by {
            if i < d.len() - 1 {
                assert(d[i] == decimal(n / 10)[i]);
            }
        }
    }
}

/// Reading back a written natural number gives that number.
pub proof fn law_unsigned_round_trip(n: nat, max: nat)
    requires
        n <= max,
    ensures
        parse_unsigned(decimal(n), max) == Some(n),
{
    law_decimal_is_digits(n);
    assert(text::digit(decimal(n)[0]));
}

/// Reading back a written integer gives that integer.
pub proof fn law_signed_round_trip(i: int)
    requires
        i64::MIN <= i <= i64::MAX,
    ensures
        parse_signed(signed(i)) == Some(i),
{
    if i < 0 {
        law_decimal_is_digits((-i) as nat);
        assert(signed(i).skip(1) =~= decimal((-i) as nat));
    } else {
        law_decimal_is_digits(i as nat);
        assert(text::digit(decimal(i as nat)[0]));
        law_unsigned_round_trip(i as nat, i64::MAX as nat);
    }
}

/// Different natural numbers are written differently.
pub proof fn law_decimal_injective(a: nat, b: nat)
    requires
        decimal(a) == decimal(b),
    ensures
        a == b,
{
    law_decimal_is_digits(a);
    law_decimal_is_digits(b);
}

/// The digits of a number, most significant first.
fn decimal_chars(n: u64) -> (r: Vec<char>)
    ensures
        r@ == decimal(n as nat),
    decreases n,
{
    let low: u8 = (n % 10) as u8;
    let c: char = (48u8 + low) as char;
    if n < 10 {
        let mut out: Vec<char> = Vec::new();
        out.push(c);
        assert(out@ =~= decimal(n as nat));
        out
    } else {
        let mut out = decimal_chars(n / 10);
        out.push(c);
        out
    }
}

/// Writes a natural number.
pub fn u64_text(n: u64) -> (r: String)
    ensures
        r@ == decimal(n as nat),
{
    text::string_of(&decimal_chars(n))
}

/// Writes a natural number of machine size.
pub fn usize_text(n: usize) -> (r: String)
    ensures
        r@ == decimal(n as nat),
{
    u64_text(n as u64)
}

/// Writes an integer.
pub fn i64_text(i: i64) -> (r: String)
    ensures
        r@ == signed(i as int),
{
    if i < 0 {
        let m: u64 = (-(i as i128)) as u64;
        let mut out = String::new();
        out.push('-');
        let body = u64_text(m);
        out.push_str(body.as_str());
        assert(out@ =~= signed(i as int));
        out
    } else {
        u64_text(i as u64)
    }
}

/// Reads digits as a number that is at most `max`.
fn read_digits(s: &[char], max: u64) -> (r: Option<u64>)
    ensures
        match r {
            Some(n) => digits(s@) && value(s@) == n && n <= max,
            None => !(digits(s@) && value(s@) <= max),
        },
{
    if s.len() == 0 {
        return None;
    }
    let mut n: u64 = 0;
    let mut i: usize = 0;
    while i < s.len()
        invariant
            i <= s@.len(),
            n <= max,
            n == value(s@.take(i as int)),
            forall|j: int| 0 <= j < i ==> text::digit(#[trigger] s@[j]),
        decreases s@.len() - i,
    {
        let c: char = s[i];
        proof {
            assert(s@.take(i + 1).drop_last() =~= s@.take(i as int));
            assert(s@.take(i + 1).last() == c);
        }
        if !('0' <= c && c <= '9') {
            return None;
        }
        let d: u64 = (c as u8 - 48u8) as u64;
        let next: u128 = (n as u128) * 10 + (d as u128);
        assert(next == value(s@.take(i + 1)));
        if next > max as u128 {
            proof {
                lemma_value_monotonic(s@, i + 1);
            }
            return None;
        }
        n = next as u64;
        i = i + 1;
    }
    assert(s@.take(s@.len() as int) =~= s@);
    Some(n)
}

/// Reads a natural number of at most `max`.
pub fn read_unsigned(s: &[char], max: u64) -> (r: Option<u64>)
    ensures
        match r {
            Some(n) => parse_unsigned(s@, max as nat) == Some(n as nat),
            None => parse_unsigned(s@, max as nat) is None,
        },
{
    if s.len() > 0 && s[0] == '+' {
        let d = &s[1..s.len()];
        assert(d@ =~= s@.skip(1));
        read_digits(d, max)
    } else {
        read_digits(s, max)
    }
}

/// Reads a natural number of machine size.
pub fn read_usize(s: &str) -> (r: Option<usize>)
    ensures
        match r {
            Some(n) => parse_unsigned(s@, usize::MAX as nat) == Some(n as nat),
            None => parse_unsigned(s@, usize::MAX as nat) is None,
        },
{
    match read_unsigned(&text::chars_of(s), usize::MAX as u64) {
        Some(n) => Some(n as usize),
        None => None,
    }
}

/// Reads an integer.
pub fn read_i64(s: &[char]) -> (r: Option<i64>)
    ensures
        match r {
            Some(n) => parse_signed(s@) == Some(n as int),
            None => parse_signed(s@) is None,
        },
{
    if s.len() > 0 && s[0] == '-' {
        let d = &s[1..s.len()];
        assert(d@ =~= s@.skip(1));
        match read_digits(d, 0x8000_0000_0000_0000u64) {
            Some(n) => Some((-(n as i128)) as i64),
            None => None,
        }
    } else {
        match read_unsigned(s, i64::MAX as u64) {
            Some(n) => Some(n as i64),
            None => None,
        }
    }
}

/// The words in which the standard library refuses to read a text as an `i64`,
/// where it does.
pub uninterp spec fn integer_refusal(s: Seq<char>) -> Option<Seq<char>>;

/// Calls `str::parse` for `i64` and writes its error with `to_string`. The
/// words depend on the text alone, and there are some unless the text is an
/// optional sign and digits, within the range of `i64`.
#[verifier::external_body]
pub(crate) fn refusal_of(s: &str) -> (r: Option<String>)
    ensures
        text::opt(r) == integer_refusal(s@),
        r is Some <==> parse_signed(s@) is None,
{
    s.parse::<i64>().err().map(|e| e.to_string())
}

/// A number is written without leading zeros, and is as long as its size needs:
/// a tenth of it is all but the last digit.
pub proof fn law_numbers_have_no_leading_zeros(n: nat)
    ensures
        n >= 10 ==> decimal(n).drop_last() == decimal(n / 10) && decimal(n).last() == decimal(
            n % 10,
        )[0],
        n < 10 ==> decimal(n).len() == 1,
        n > 0 ==> decimal(n)[0] != '0',
        decimal(0) == seq!['0'],
        signed(n as int) == decimal(n),
        n > 0 ==> signed(-(n as int)) == seq!['-'] + decimal(n),
    decreases n,
{
    if n >= 10 {
        law_numbers_have_no_leading_zeros(n / 10);
        assert(decimal(n).drop_last() =~= decimal(n / 10));
        law_decimal_is_digits(n / 10);
        assert(decimal(n)[0] == decimal(n / 10)[0]);
    }
}

/// A text is read as a number exactly where it is digits, with or without a sign
/// in front, and the number is within its range.
pub proof fn law_only_digits_are_read(s: Seq<char>, max: nat)
    requires
        digits(s),
    ensures
        parse_unsigned(s, max) is Some <==> value(s) <= max,
        parse_unsigned(s, max) matches Some(n) ==> n == value(s),
        parse_unsigned(seq!['+'] + s, max) == parse_unsigned(s, max),
        parse_unsigned(seq!['-'] + s, max) is None,
        parse_signed(seq!['-'] + s) is Some <==> value(s) <= 0x8000_0000_0000_0000,
        parse_signed(seq!['-'] + s) matches Some(i) ==> i == -(value(s) as int),
        parse_signed(s) is Some <==> value(s) <= i64::MAX,
        parse_signed(s) matches Some(i) ==> i == value(s),
        parse_unsigned(Seq::empty(), max) is None,
        forall|t: Seq<char>, i: int|
            0 <= i < t.len() && !('0' <= #[trigger] t[i] <= '9') && t[0] != '+' && t[0] != '-'
                ==> #[trigger] parse_unsigned(t, max) is None && parse_signed(t) is None,
{
    assert(text::digit(s[0]));
    assert((seq!['+'] + s).skip(1) =~= s);
    assert((seq!['-'] + s).skip(1) =~= s);
    assert(!text::digit((seq!['-'] + s)[0]));
    assert forall|t: Seq<char>, i: int|
        0 <= i < t.len() && !('0' <= #[trigger] t[i] <= '9') && t[0] != '+' && t[0] != '-' implies
        #[trigger] parse_unsigned(t, max) is None && parse_signed(t) is None by {
        assert(!text::digit(t[i]));
        assert(!digits(t));
    }
}

} // verus!
