use vstd::prelude::*;
use crate::text::chars_of;

verus! {

/// The character that groups the digits of a large figure in threes.
pub const SEPARATOR: char = ',';

/// The ten decimal digits of ASCII.
pub open spec fn is_digit(c: char) -> bool {
    '0' <= c <= '9'
}

/// The value of a decimal digit; zero for any other character.
pub open spec fn digit_value(c: char) -> nat {
    if is_digit(c) {
        (c as u32 - '0' as u32) as nat
    } else {
        0
    }
}

/// The character that writes a value below ten.
pub open spec fn digit_char(d: nat) -> char
    recommends
        d < 10,
{
    (('0' as u8 + d) as u8) as char
}

/// Every character is a decimal digit.
pub open spec fn all_digits(s: Seq<char>) -> bool {
    forall|i: int| 0 <= i < s.len() ==> is_digit(#[trigger] s[i])
}

/// The number that a run of decimal digits writes, most significant first.
pub open spec fn decimal_value(digits: Seq<char>) -> nat
    decreases digits.len(),
{
    if digits.len() == 0 {
        0
    } else {
        decimal_value(digits.drop_last()) * 10 + digit_value(digits.last())
    }
}

/// The shortest decimal writing of a number.
pub open spec fn decimal(n: nat) -> Seq<char>
    decreases n,
{
    if n < 10 {
        seq![digit_char(n)]
    } else {
        decimal(n / 10).push(digit_char(n % 10))
    }
}

/// Stripping keeps every character but the separator.
pub open spec fn keeps(c: char) -> bool {
    c != SEPARATOR
}

/// A field with every thousands separator taken out.
pub open spec fn without_separators(field: Seq<char>) -> Seq<char> {
    field.filter(|c: char| keeps(c))
}

/// What is left of a figure once one leading plus sign is dropped.
pub open spec fn unsigned_part(s: Seq<char>) -> Seq<char> {
    if s.len() > 0 && s[0] == '+' {
        s.drop_first()
    } else {
        s
    }
}

/// The number that a captured field stands for: separators are ignored, one
/// leading plus sign is allowed, and what remains must be at least one
/// decimal digit and fit in 64 bits.
pub open spec fn number_of(field: Seq<char>) -> Option<u64> {
    let digits = unsigned_part(without_separators(field));
    if digits.len() > 0 && all_digits(digits) && decimal_value(digits) <= u64::MAX {
        Some(decimal_value(digits) as u64)
    } else {
        None
    }
}

/// A longer run of characters never writes a smaller number than its prefix.
pub proof fn lemma_decimal_value_prefix(digits: Seq<char>, k: int)
    requires
        0 <= k <= digits.len(),
    ensures
        decimal_value(digits.take(k)) <= decimal_value(digits),
    decreases digits.len(),
{
    if k == digits.len() {
        assert(digits.take(k) == digits);
    } else {
        lemma_decimal_value_prefix(digits.drop_last(), k);
        assert(digits.drop_last().take(k) == digits.take(k));
    }
}

/// Removes every thousands separator from a field.
pub fn strip_separators(field: &str) -> (r: Vec<char>)
    ensures
        r@ == without_separators(field@),
{
    let chars = chars_of(field);
    let mut kept: Vec<char> = Vec::new();
    let mut i: usize = 0;
    proof {
        reveal(Seq::filter);
    }
    while i < chars.len()
        invariant
            i <= chars.len(),
            kept@ == without_separators(chars@.take(i as int)),
        decreases chars.len() - i,
    {
        let c = chars[i];
        proof {
            let prefix = chars@.take(i as int);
            assert(chars@.take(i + 1) == prefix.push(c));
            prefix.lemma_filter_push(c, |c: char| keeps(c));
        }
        if c != SEPARATOR {
            kept.push(c);
        }
        i += 1;
    }
    assert(chars@.take(chars.len() as int) == chars@);
    kept
}

/// Reads a run of decimal digits, starting at `start`, as a 64-bit number.
fn parse_digits(chars: &Vec<char>, start: usize) -> (r: Option<u64>)
    requires
        start <= chars.len(),
    ensures
        ({
            let digits = chars@.skip(start as int);
            r == if all_digits(digits) && decimal_value(digits) <= u64::MAX {
                Some(decimal_value(digits) as u64)
            } else {
                None
            }
        }),
{
    let ghost digits = chars@.skip(start as int);
    let mut value: u64 = 0;
    let mut i: usize = start;
    while i < chars.len()
        invariant
            start <= i <= chars.len(),
            digits == chars@.skip(start as int),
            all_digits(digits.take(i - start)),
            value == decimal_value(digits.take(i - start)),
        decreases chars.len() - i,
    {
        let c = chars[i];
        proof {
            assert(digits.take(i - start + 1).drop_last() == digits.take(i - start));
            assert(digits.take(i - start + 1).last() == c);
            lemma_decimal_value_prefix(digits, i - start + 1);
        }
        if !('0' <= c && c <= '9') {
            assert(!is_digit(digits[i - start]));
            return None;
        }
        let d: u64 = (c as u32 - '0' as u32) as u64;
        let next = match value.checked_mul(10) {
            Some(tens) => tens.checked_add(d),
            None => None,
        };
        match next {
            Some(n) => {
                value = n;
            },
            None => {
                return None;
            },
        }
        i += 1;
    }
    assert(digits.take(chars.len() - start) == digits);
    Some(value)
}

/// Reads a captured numeric field.
pub fn parse_number(field: &str) -> (r: Option<u64>)
    ensures
        r == number_of(field@),
{
    let chars = strip_separators(field);
    let start: usize = if chars.len() > 0 && chars[0] == '+' {
        1
    } else {
        0
    };
    assert(chars@.skip(start as int) == unsigned_part(chars@));
    if start == chars.len() {
        return None;
    }
    parse_digits(&chars, start)
}

/// Appends the decimal writing of `n` to `out`.
pub fn push_decimal(out: &mut String, n: u64)
    ensures
        final(out)@ == old(out)@ + decimal(n as nat),
    decreases n,
{
    if n >= 10 {
        push_decimal(out, n / 10);
    }
    let d: u8 = (n % 10) as u8;
    out.push((48u8 + d) as char);
}

/// A run of characters without a separator is left as it is.
proof fn lemma_nothing_to_strip(s: Seq<char>)
    requires
        forall|i: int| 0 <= i < s.len() ==> keeps(#[trigger] s[i]),
    ensures
        without_separators(s) == s,
    decreases s.len(),
{
    reveal(Seq::filter);
    if s.len() > 0 {
        lemma_nothing_to_strip(s.drop_last());
        assert(s.drop_last().push(s.last()) == s);
    }
}

/// The decimal writing of a number is made of digits, and they write it.
pub proof fn lemma_decimal_digits(n: nat)
    ensures
        decimal(n).len() > 0,
        all_digits(decimal(n)),
        decimal_value(decimal(n)) == n,
    decreases n,
{
    if n < 10 {
        assert(decimal(n).drop_last() == Seq::<char>::empty());
        assert(decimal_value(decimal(n).drop_last()) == 0);
    } else {
        lemma_decimal_digits(n / 10);
        assert(decimal(n).drop_last() == decimal(n / 10));
    }
}

/// What the writer prints, the parser reads back: the decimal writing of a
/// 64-bit number stands for that number.
pub proof fn lemma_decimal_round_trip(n: u64)
    ensures
        number_of(decimal(n as nat)) == Some(n),
{
    let digits = decimal(n as nat);
    lemma_decimal_digits(n as nat);
    assert forall|i: int| 0 <= i < digits.len() implies keeps(#[trigger] digits[i]) by {
        assert(is_digit(digits[i]));
    }
    lemma_nothing_to_strip(digits);
    assert(is_digit(digits[0]));
}

} // verus!
