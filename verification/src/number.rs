//! Decimal numbers as text: reading and writing.

use vstd::prelude::*;
use crate::text::{chars_of, is_digit};

verus! {

/// The number that a decimal digit stands for.
pub open spec fn digit_value(c: char) -> nat {
    (c as int - '0' as int) as nat
}

/// Every character is a decimal digit.
pub open spec fn all_digits(s: Seq<char>) -> bool {
    forall|i: int| 0 <= i < s.len() ==> is_digit(#[trigger] s[i])
}

/// The number that a row of decimal digits stands for.
pub open spec fn decimal_value(s: Seq<char>) -> nat
    decreases s.len(),
{
    if s.len() == 0 {
        0
    } else {
        10 * decimal_value(s.drop_last()) + digit_value(s.last())
    }
}

/// At least one digit, nothing but digits, and a value within `max`.
pub open spec fn magnitude(s: Seq<char>, max: nat) -> Option<nat> {
    if s.len() > 0 && all_digits(s) && decimal_value(s) <= max {
        Some(decimal_value(s))
    } else {
        None
    }
}

/// An unsigned decimal number within `max`: digits, with one `+` allowed in
/// front.
pub open spec fn unsigned(s: Seq<char>, max: nat) -> Option<nat> {
    if s.len() > 0 && s[0] == '+' {
        magnitude(s.drop_first(), max)
    } else {
        magnitude(s, max)
    }
}

/// A signed decimal number from `-max - 1` to `max`: digits, with one `+` or
/// `-` allowed in front.
pub open spec fn signed(s: Seq<char>, max: nat) -> Option<int> {
    if s.len() > 0 && s[0] == '-' {
        match magnitude(s.drop_first(), max + 1) {
            Some(n) => Some(-n),
            None => None,
        }
    } else {
        match unsigned(s, max) {
            Some(n) => Some(n as int),
            None => None,
        }
    }
}

/// The digit for a number below ten.
pub open spec fn digit_char(n: nat) -> char
    recommends
        n < 10,
{
    ((n + '0' as int) as u8) as char
}

/// A natural number in decimal, without leading zeros.
pub open spec fn decimal(n: nat) -> Seq<char>
    decreases n,
{
    if n < 10 {
        seq![digit_char(n)]
    } else {
        decimal(n / 10).push(digit_char(n % 10))
    }
}

/// An integer in decimal, with a `-` in front of a negative one.
pub open spec fn decimal_signed(n: int) -> Seq<char> {
    if n < 0 {
        seq!['-'] + decimal((-n) as nat)
    } else {
        decimal(n as nat)
    }
}

/// A longer row of digits stands for no smaller number.
proof fn lemma_prefix_value(s: Seq<char>, i: int)
    requires
        0 <= i <= s.len(),
    ensures
        decimal_value(s.take(i)) <= decimal_value(s),
    decreases s.len() - i,
{
    if i < s.len() {
        lemma_prefix_value(s, i + 1);
        assert(s.take(i + 1).drop_last() =~= s.take(i));
    } else {
        assert(s.take(i) =~= s);
    }
}

/// A number's decimal text is one or more digits and reads back as that
/// number.
pub proof fn lemma_decimal(n: nat)
    ensures
        decimal(n).len() >= 1,
        all_digits(decimal(n)),
        decimal_value(decimal(n)) == n,
    decreases n,
{
    if n < 10 {
        let s = decimal(n);
        assert(s.drop_last() =~= Seq::<char>::empty());
        assert(s.last() == digit_char(n));
        reveal_with_fuel(decimal_value, 2);
    } else {
        lemma_decimal(n / 10);
        let s = decimal(n);
        assert(s.drop_last() =~= decimal(n / 10));
        assert(s.last() == digit_char(n % 10));
        assert forall|i: int| 0 <= i < s.len() implies is_digit(#[trigger] s[i]) by {
            if i < s.len() - 1 {
                assert(s[i] == decimal(n / 10)[i]);
            }
        }
    }
}

/// Reading back a number that was written in decimal gives the number.
pub proof fn unsigned_decimal_round_trip(n: nat, max: nat)
    requires
        n <= max,
    ensures
        unsigned(decimal(n), max) == Some(n),
{
    lemma_decimal(n);
    assert(is_digit(decimal(n)[0]));
}

/// Reading back an integer that was written in decimal gives the integer.
pub proof fn signed_decimal_round_trip(n: int, max: nat)
    requires
        -max - 1 <= n <= max,
    ensures
        signed(decimal_signed(n), max) == Some(n),
{
    if n < 0 {
        let m = (-n) as nat;
        lemma_decimal(m);
        assert(decimal_signed(n).drop_first() =~= decimal(m));
    } else {
        lemma_decimal(n as nat);
        assert(is_digit(decimal(n as nat)[0]));
        unsigned_decimal_round_trip(n as nat, max);
    }
}

/// Reads `chars[from..]` as a row of digits.
fn read_magnitude(chars: &[char], from: usize, max: u64) -> (r: Option<u64>)
    requires
        from <= chars@.len(),
    ensures
        match r {
            Some(n) => magnitude(chars@.skip(from as int), max as nat) == Some(n as nat),
            None => magnitude(chars@.skip(from as int), max as nat) is None,
        },
{
    let ghost s = chars@.skip(from as int);
    if from == chars.len() {
        return None;
    }
    let mut value: u64 = 0;
    let mut i: usize = from;
    while i < chars.len()
        invariant
            from <= i <= chars@.len(),
            s == chars@.skip(from as int),
            value <= max,
            value == decimal_value(s.take(i - from)),
            forall|k: int| 0 <= k < i - from ==> is_digit(#[trigger] s[k]),
        decreases chars.len() - i,
    {
        let c = chars[i];
        assert(s[i - from] == c);
        if c < '0' || c > '9' {
            return None;
        }
        let d: u64 = (c as u8 - '0' as u8) as u64;
        proof {
            assert(s.take(i - from + 1).drop_last() =~= s.take(i - from));
            assert(s.take(i - from + 1).last() == c);
            lemma_prefix_value(s, i - from + 1);
        }
        if value > max / 10 {
            return None;
        }
        let shifted: u64 = value * 10;
        if d > max - shifted {
            return None;
        }
        value = shifted + d;
        i += 1;
    }
    assert(s.take(i - from) =~= s);
    Some(value)
}

/// Reads an unsigned decimal number of at most `max`.
pub fn read_unsigned(text: &str, max: u64) -> (r: Option<u64>)
    ensures
        match r {
            Some(n) => unsigned(text@, max as nat) == Some(n as nat) && n <= max,
            None => unsigned(text@, max as nat) is None,
        },
{
    let chars = chars_of(text);
    assert(text@.skip(1) =~= text@.drop_first() || text@.len() == 0);
    assert(text@.skip(0) =~= text@);
    if chars.len() > 0 && chars[0] == '+' {
        read_magnitude(&chars, 1, max)
    } else {
        read_magnitude(&chars, 0, max)
    }
}

/// Reads a signed 64-bit decimal number.
pub fn read_i64(text: &str) -> (r: Option<i64>)
    ensures
        match r {
            Some(n) => signed(text@, i64::MAX as nat) == Some(n as int),
            None => signed(text@, i64::MAX as nat) is None,
        },
{
    let chars = chars_of(text);
    if chars.len() > 0 && chars[0] == '-' {
        assert(text@.skip(1) =~= text@.drop_first());
        match read_magnitude(&chars, 1, 0x8000_0000_0000_0000) {
            Some(n) => {
                if n == 0x8000_0000_0000_0000 {
                    Some(i64::MIN)
                } else {
                    Some(-(n as i64))
                }
            },
            None => None,
        }
    } else {
        match read_unsigned(text, 0x7fff_ffff_ffff_ffff) {
            Some(n) => Some(n as i64),
            None => None,
        }
    }
}

/// Reads a signed 32-bit decimal number.
pub fn read_i32(text: &str) -> (r: Option<i32>)
    ensures
        match r {
            Some(n) => signed(text@, i32::MAX as nat) == Some(n as int),
            None => signed(text@, i32::MAX as nat) is None,
        },
{
    let chars = chars_of(text);
    if chars.len() > 0 && chars[0] == '-' {
        assert(text@.skip(1) =~= text@.drop_first());
        match read_magnitude(&chars, 1, 0x8000_0000) {
            Some(n) => {
                if n == 0x8000_0000 {
                    Some(i32::MIN)
                } else {
                    Some(-(n as i32))
                }
            },
            None => None,
        }
    } else {
        match read_unsigned(text, 0x7fff_ffff) {
            Some(n) => Some(n as i32),
            None => None,
        }
    }
}

/// Appends a number in decimal.
pub fn push_decimal(out: &mut String, n: u64)
    ensures
        final(out)@ == old(out)@ + decimal(n as nat),
    decreases n,
{
    if n >= 10 {
        push_decimal(out, n / 10);
    }
    let d: u8 = (n % 10) as u8;
    proof {
        if n < 10 {
            assert(old(out)@ + decimal(n as nat) =~= old(out)@.push(digit_char(n as nat)));
        } else {
            assert(old(out)@ + decimal(n as nat) =~= (old(out)@ + decimal((n / 10) as nat)).push(
                digit_char((n % 10) as nat),
            ));
        }
    }
    out.push((d + '0' as u8) as char);
}

/// A number in decimal.
pub fn decimal_text(n: u64) -> (r: String)
    ensures
        r@ == decimal(n as nat),
{
    let mut out = String::new();
    push_decimal(&mut out, n);
    assert(Seq::<char>::empty() + decimal(n as nat) =~= decimal(n as nat));
    out
}

/// A signed number in decimal.
pub fn signed_decimal_text(n: i64) -> (r: String)
    ensures
        r@ == decimal_signed(n as int),
{
    let mut out = String::new();
    if n < 0 {
        out.push('-');
        if n == i64::MIN {
            push_decimal(&mut out, 0x8000_0000_0000_0000);
        } else {
            push_decimal(&mut out, (-n) as u64);
        }
        assert(Seq::<char>::empty().push('-') =~= seq!['-']);
    } else {
        push_decimal(&mut out, n as u64);
        assert(Seq::<char>::empty() + decimal(n as nat) =~= decimal(n as nat));
    }
    out
}

/// Numbers are written in base ten, with a minus sign in front of those below
/// zero, and a plus sign in front of one that is read does not count.
pub proof fn numbers_are_written_in_base_ten(n: nat, d: nat, max: nat)
    requires
        d < 10,
    ensures
        decimal(d) == seq![seq!['0', '1', '2', '3', '4', '5', '6', '7', '8', '9'][d as int]],
        n > 0 ==> decimal(10 * n + d) == decimal(n) + decimal(d),
        n > 0 ==> decimal_signed(-(n as int)) == seq!['-'] + decimal(n),
        decimal_signed(n as int) == decimal(n),
        n <= max ==> unsigned(seq!['+'] + decimal(n), max) == Some(n),
        n > max ==> unsigned(decimal(n), max) is None,
        unsigned(seq!['-'] + decimal(n), max) is None,
{
    if n > 0 {
        assert((10 * n + d) / 10 == n && (10 * n + d) % 10 == d);
        assert(decimal(10 * n + d) =~= decimal(n) + decimal(d));
    }
    lemma_decimal(n);
    let plus = seq!['+'] + decimal(n);
    assert(plus[0] == '+');
    assert(plus.drop_first() =~= decimal(n));
    let minus = seq!['-'] + decimal(n);
    assert(!is_digit(minus[0]));
    assert(is_digit(decimal(n)[0]));
}

} // verus!
