//! Integers written in decimal digits, and read back from them.

use vstd::prelude::*;
use vstd::string::*;
use vstd::utf8::*;

verus! {

/// The character that stands for the digit `d`.
pub open spec fn digit_char(d: int) -> char {
    if d == 0 {
        '0'
    } else if d == 1 {
        '1'
    } else if d == 2 {
        '2'
    } else if d == 3 {
        '3'
    } else if d == 4 {
        '4'
    } else if d == 5 {
        '5'
    } else if d == 6 {
        '6'
    } else if d == 7 {
        '7'
    } else if d == 8 {
        '8'
    } else {
        '9'
    }
}

/// The decimal digits of `n`, without padding: one digit for zero, no leading zero otherwise.
pub open spec fn decimal(n: nat) -> Seq<char>
    decreases n,
{
    if n < 10 {
        seq![digit_char(n as int)]
    } else {
        decimal(n / 10).push(digit_char((n % 10) as int))
    }
}

/// `count` zeros.
pub open spec fn zeros(count: nat) -> Seq<char> {
    Seq::new(count, |i: int| '0')
}

/// The decimal digits of `n`, with zeros in front where they are fewer than `width`.
pub open spec fn zero_padded(n: nat, width: nat) -> Seq<char> {
    if decimal(n).len() >= width {
        decimal(n)
    } else {
        zeros((width - decimal(n).len()) as nat) + decimal(n)
    }
}

/// Whether `c` is one of the ten decimal digits.
pub open spec fn is_digit(c: char) -> bool {
    '0' <= c <= '9'
}

/// The digit that the character `c` stands for.
pub open spec fn digit_value(c: char) -> int {
    c as int - '0' as int
}

/// Whether `text` holds decimal digits only.
pub open spec fn all_digits(text: Seq<char>) -> bool {
    forall|i: int| 0 <= i < text.len() ==> is_digit(#[trigger] text[i])
}

/// The number that a string of digits denotes; zero for the empty string.
pub open spec fn digits_value(text: Seq<char>) -> nat
    decreases text.len(),
{
    if text.len() == 0 {
        0
    } else {
        (digits_value(text.drop_last()) * 10 + digit_value(text.last())) as nat
    }
}

/// The integer that `text` denotes: an optional sign, `+` or `-`, and at least one digit
/// after it. Anything else denotes no integer.
pub open spec fn signed_value(text: Seq<char>) -> Option<int> {
    let signed = text.len() > 0 && (text[0] == '+' || text[0] == '-');
    let digits = if signed {
        text.drop_first()
    } else {
        text
    };
    if digits.len() > 0 && all_digits(digits) {
        if signed && text[0] == '-' {
            Some(-(digits_value(digits) as int))
        } else {
            Some(digits_value(digits) as int)
        }
    } else {
        None
    }
}

/// The digits of a number denote that number.
pub proof fn lemma_decimal_reads_back(n: nat)
    ensures
        decimal(n).len() > 0,
        all_digits(decimal(n)),
        digits_value(decimal(n)) == n,
    decreases n,
{
    if n < 10 {
        let text = decimal(n);
        assert(text.drop_last() =~= Seq::<char>::empty());
        assert(digits_value(text.drop_last()) == 0);
    } else {
        lemma_decimal_reads_back(n / 10);
        let text = decimal(n);
        assert(text.drop_last() =~= decimal(n / 10));
    }
}

/// Zeros in front of a string of digits do not change the number that it denotes.
pub proof fn lemma_leading_zeros_ignored(count: nat, text: Seq<char>)
    requires
        all_digits(text),
    ensures
        all_digits(zeros(count) + text),
        digits_value(zeros(count) + text) == digits_value(text),
    decreases text.len(), count,
{
    let whole = zeros(count) + text;
    if text.len() > 0 {
        assert(whole.drop_last() =~= zeros(count) + text.drop_last());
        lemma_leading_zeros_ignored(count, text.drop_last());
    } else if count > 0 {
        assert(whole.drop_last() =~= zeros((count - 1) as nat) + text);
        lemma_leading_zeros_ignored((count - 1) as nat, text);
    } else {
        assert(whole =~= text);
    }
}

/// The zero-padded digits of a number denote that number, and carry no sign.
pub proof fn lemma_zero_padded_reads_back(n: nat, width: nat)
    ensures
        zero_padded(n, width).len() > 0,
        all_digits(zero_padded(n, width)),
        digits_value(zero_padded(n, width)) == n,
        signed_value(zero_padded(n, width)) == Some(n as int),
{
    lemma_decimal_reads_back(n);
    if decimal(n).len() < width {
        lemma_leading_zeros_ignored((width - decimal(n).len()) as nat, decimal(n));
    }
    assert(is_digit(zero_padded(n, width)[0]));
}

/// The string of one character for the digit `d`.
fn digit_str(d: u32) -> (s: &'static str)
    requires
        d < 10,
    ensures
        s@ == seq![digit_char(d as int)],
{
    proof {
        reveal_strlit("0");
        reveal_strlit("1");
        reveal_strlit("2");
        reveal_strlit("3");
        reveal_strlit("4");
        reveal_strlit("5");
        reveal_strlit("6");
        reveal_strlit("7");
        reveal_strlit("8");
        reveal_strlit("9");
    }
    let s = if d == 0 {
        "0"
    } else if d == 1 {
        "1"
    } else if d == 2 {
        "2"
    } else if d == 3 {
        "3"
    } else if d == 4 {
        "4"
    } else if d == 5 {
        "5"
    } else if d == 6 {
        "6"
    } else if d == 7 {
        "7"
    } else if d == 8 {
        "8"
    } else {
        "9"
    };
    assert(s@ =~= seq![digit_char(d as int)]);
    s
}

/// Appends the decimal digits of `n` to `out`.
pub fn push_decimal(out: &mut String, n: u32)
    ensures
        final(out)@ == old(out)@ + decimal(n as nat),
    decreases n,
{
    if n >= 10 {
        push_decimal(out, n / 10);
    }
    out.append(digit_str(n % 10));
    proof {
        if n >= 10 {
            assert(out@ =~= old(out)@ + decimal(n as nat));
        } else {
            assert(out@ =~= old(out)@ + decimal(n as nat));
        }
    }
}

/// The decimal digits of `n` as a string.
pub fn decimal_string(n: u32) -> (text: String)
    ensures
        text@ == decimal(n as nat),
{
    let mut text = String::new();
    push_decimal(&mut text, n);
    assert(text@ =~= decimal(n as nat));
    text
}

/// The integer that `text` denotes, where it lies between `min` and `max`.
pub open spec fn value_within(text: Seq<char>, min: int, max: int) -> Option<int> {
    match signed_value(text) {
        Some(v) => if min <= v <= max {
            Some(v)
        } else {
            None
        },
        None => None,
    }
}

/// What reading `text` as an `i16` gives: its integer, where it has one that an `i16` holds.
pub open spec fn parsed_i16(text: Seq<char>) -> Option<int> {
    value_within(text, i16::MIN as int, i16::MAX as int)
}

/// What reading `text` as a `u8` gives: its integer, where it has one that a `u8` holds and
/// is written without a minus sign.
pub open spec fn parsed_u8(text: Seq<char>) -> Option<int> {
    if text.len() > 0 && text[0] == '-' {
        None
    } else {
        value_within(text, u8::MIN as int, u8::MAX as int)
    }
}

/// A string of digits denotes at least what any of its prefixes denotes.
proof fn lemma_digits_value_grows(text: Seq<char>, k: int)
    requires
        all_digits(text),
        0 <= k <= text.len(),
    ensures
        digits_value(text.take(k)) <= digits_value(text),
    decreases text.len() - k,
{
    if k == text.len() {
        assert(text.take(k) =~= text);
    } else {
        assert(text.take(k + 1).drop_last() =~= text.take(k));
        assert(is_digit(text.take(k + 1).last()));
        lemma_digits_value_grows(text, k + 1);
    }
}

/// A string with a character outside ASCII denotes no integer.
proof fn lemma_integers_are_ascii(text: Seq<char>)
    requires
        !is_ascii_chars(text),
    ensures
        signed_value(text) is None,
{
    let i = choose|i: int| 0 <= i < text.len() && !('\0' <= #[trigger] text[i] <= '\u{7f}');
    if i > 0 {
        assert(text.drop_first()[i - 1] == text[i]);
    }
}

/// Reads `text` as an integer between `min` and `max`.
fn parse_within(text: &str, min: i32, max: i32) -> (value: Option<i32>)
    ensures
        match value {
            Some(v) => value_within(text@, min as int, max as int) == Some(v as int),
            None => value_within(text@, min as int, max as int) is None,
        },
{
    if !text.is_ascii() {
        proof {
            lemma_integers_are_ascii(text@);
        }
        return None;
    }
    let bytes = text.as_bytes();
    proof {
        is_ascii_chars_encode_utf8(text@);
    }
    let n = bytes.len();
    if n == 0 {
        return None;
    }
    let negative = bytes[0] == 45u8;
    let start: usize = if bytes[0] == 43u8 || bytes[0] == 45u8 {
        1
    } else {
        0
    };
    let ghost digits = if start == 1 {
        text@.drop_first()
    } else {
        text@
    };
    if start == n {
        return None;
    }
    let mut magnitude: i64 = 0;
    let mut i: usize = start;
    proof {
        assert(digits.take(0) =~= Seq::<char>::empty());
    }
    while i < n
        invariant
            start <= i <= n,
            n == bytes@.len(),
            n == text@.len(),
            digits.len() == n - start,
            start <= 1,
            digits == if start == 1 {
                text@.drop_first()
            } else {
                text@
            },
            start == 1 <==> text@[0] == '+' || text@[0] == '-',
            forall|k: int| 0 <= k < digits.len() ==> digits[k] == text@[k + start],
            forall|k: int| 0 <= k < n ==> '\0' <= #[trigger] text@[k] <= '\u{7f}',
            forall|k: int| 0 <= k < n ==> #[trigger] text@[k] as u8 == bytes@[k],
            all_digits(digits.take(i - start)),
            magnitude == digits_value(digits.take(i - start)),
            0 <= magnitude <= 0x8000_0000,
        decreases n - i,
    {
        let byte = bytes[i];
        let ghost c = text@[i as int];
        proof {
            assert(c as u8 == byte);
            assert(digits[i - start] == c);
        }
        if byte < 48u8 || byte > 57u8 {
            proof {
                assert(!is_digit(digits[i - start]));
            }
            return None;
        }
        proof {
            assert(digits.take(i + 1 - start).drop_last() =~= digits.take(i - start));
            assert(digits.take(i + 1 - start).last() == c);
            assert(is_digit(c));
            assert(digit_value(c) == byte - 48);
        }
        magnitude = magnitude * 10 + (byte - 48u8) as i64;
        if magnitude > 0x8000_0000 {
            proof {
                if all_digits(digits) {
                    lemma_digits_value_grows(digits, i + 1 - start);
                }
            }
            return None;
        }
        i += 1;
    }
    proof {
        assert(digits.take(i - start) =~= digits);
    }
    let value: i64 = if negative {
        -magnitude
    } else {
        magnitude
    };
    if value < min as i64 || value > max as i64 {
        None
    } else {
        Some(value as i32)
    }
}

/// Reads `text` as an `i16` written in decimal digits, with an optional sign in front.
pub fn parse_i16(text: &str) -> (value: Option<i16>)
    ensures
        match value {
            Some(v) => parsed_i16(text@) == Some(v as int),
            None => parsed_i16(text@) is None,
        },
{
    match parse_within(text, -32768, 32767) {
        Some(v) => Some(v as i16),
        None => None,
    }
}

/// Reads `text` as a `u8` written in decimal digits, with an optional `+` in front.
pub fn parse_u8(text: &str) -> (value: Option<u8>)
    ensures
        match value {
            Some(v) => parsed_u8(text@) == Some(v as int),
            None => parsed_u8(text@) is None,
        },
{
    match parse_within(text, 0, 255) {
        Some(v) => {
            let bytes = text.as_bytes();
            proof {
                if !is_ascii_chars(text@) {
                    lemma_integers_are_ascii(text@);
                }
                is_ascii_chars_encode_utf8(text@);
            }
            if bytes[0] == 45u8 {
                None
            } else {
                Some(v as u8)
            }
        },
        None => None,
    }
}

} // verus!
