//! Decimal numbers in texts: writing a number as digits, and reading the
//! digits of a header value.

use vstd::prelude::*;

verus! {

/// The decimal digits of `value`, most significant first, without leading
/// zeros; zero is written `0`.
pub open spec fn decimal_digits(value: nat) -> Seq<char>
    decreases value,
{
    if value < 10 {
        seq![((value + 48) as char)]
    } else {
        decimal_digits(value / 10).push(((value % 10 + 48) as char))
    }
}

/// Whether `byte` is one of the ASCII characters `0` to `9`.
pub open spec fn is_digit_byte(byte: u8) -> bool {
    48 <= byte <= 57
}

/// Whether `bytes` is a run of ASCII digits, the empty run included.
pub open spec fn all_digit_bytes(bytes: Seq<u8>) -> bool {
    forall|i: int| 0 <= i < bytes.len() ==> is_digit_byte(#[trigger] bytes[i])
}

/// The number that a run of ASCII digits writes in decimal, read from the
/// left; leading zeros count for nothing, and the empty run writes zero.
pub open spec fn digits_number(bytes: Seq<u8>) -> nat
    decreases bytes.len(),
{
    if bytes.len() == 0 {
        0
    } else {
        (10 * digits_number(bytes.drop_last()) + (bytes.last() - 48)) as nat
    }
}

/// The number written by `bytes`, if `bytes` is a run of at least one ASCII
/// digit and the number is at most `limit`.
pub open spec fn bounded_number(bytes: Seq<u8>, limit: nat) -> Option<nat> {
    if bytes.len() > 0 && all_digit_bytes(bytes) && digits_number(bytes) <= limit {
        Some(digits_number(bytes))
    } else {
        None
    }
}

/// A longer run of digits never writes a smaller number than the run it
/// starts with.
pub proof fn lemma_digits_number_grows(bytes: Seq<u8>, shorter: int)
    requires
        all_digit_bytes(bytes),
        0 <= shorter <= bytes.len(),
    ensures
        digits_number(bytes.take(shorter)) <= digits_number(bytes),
    decreases bytes.len() - shorter,
{
    if shorter < bytes.len() {
        assert(bytes.take(shorter + 1).drop_last() =~= bytes.take(shorter));
        assert(is_digit_byte(bytes.take(shorter + 1).last()));
        assert(all_digit_bytes(bytes.take(shorter + 1)));
        lemma_digits_number_grows(bytes, shorter + 1);
    } else {
        assert(bytes.take(shorter) =~= bytes);
    }
}

/// Reads the digits `bytes[start..end]` as a decimal number of at most
/// `limit`.
pub fn parse_number(bytes: &[u8], start: usize, end: usize, limit: u64) -> (number: Option<u64>)
    requires
        start <= end <= bytes@.len(),
    ensures
        match bounded_number(bytes@.subrange(start as int, end as int), limit as nat) {
            Some(value) => number == Some(value as u64),
            None => number is None,
        },
{
    let ghost digits = bytes@.subrange(start as int, end as int);
    if start == end {
        return None;
    }
    let mut value: u64 = 0;
    let mut at: usize = start;
    assert(digits.take(0) =~= Seq::<u8>::empty());
    while at < end
        invariant
            start <= at <= end <= bytes@.len(),
            digits == bytes@.subrange(start as int, end as int),
            all_digit_bytes(digits.take(at - start)),
            value == digits_number(digits.take(at - start)),
            value <= limit,
        decreases end - at,
    {
        let byte = bytes[at];
        let ghost seen = digits.take(at - start);
        let ghost next = digits.take(at - start + 1);
        proof {
            assert(next.drop_last() =~= seen);
            assert(next.last() == byte);
        }
        if byte < 48 || byte > 57 {
            proof {
                assert(!is_digit_byte(digits[at - start]));
            }
            return None;
        }
        proof {
            assert(all_digit_bytes(next)) by {
                assert forall|i: int| 0 <= i < next.len() implies is_digit_byte(
                    #[trigger] next[i],
                ) by {
                    if i < seen.len() {
                        assert(next[i] == seen[i]);
                    }
                }
            }
        }
        let digit: u64 = (byte - 48) as u64;
        if digit > limit || value > (limit - digit) / 10 {
            proof {
                // Ten times the value so far, and the digit, already pass the limit,
                // and further digits cannot bring the number down.
                assert(10 * value + digit > limit) by (nonlinear_arith)
                    requires
                        digit > limit || value > (limit - digit) / 10,
                        0 <= digit,
                        0 <= value,
                ;
                if all_digit_bytes(digits) {
                    lemma_digits_number_grows(digits, at - start + 1);
                }
            }
            return None;
        }
        assert(10 * value + digit <= limit) by (nonlinear_arith)
            requires
                value <= (limit - digit) / 10,
                0 <= digit <= limit,
        ;
        value = 10 * value + digit;
        at += 1;
    }
    assert(digits.take(at - start) =~= digits);
    Some(value)
}

/// The text `0` to `9` for a single digit.
fn digit_text(digit: u8) -> (text: &'static str)
    requires
        digit < 10,
    ensures
        text@ == seq![((digit + 48) as char)],
{
    proof {
        reveal_strlit("0");
        reveal_strlit("1");
        reveal_strlit("2");
        reveal_strlit("3");
        reveal_strlit("4");
        reveal_strlit("5");
        reveal_strlit("6");
        reveal_strlit("7");
        reveal_strlit("8");
        reveal_strlit("9");
    }
    let text = if digit == 0 {
        "0"
    } else if digit == 1 {
        "1"
    } else if digit == 2 {
        "2"
    } else if digit == 3 {
        "3"
    } else if digit == 4 {
        "4"
    } else if digit == 5 {
        "5"
    } else if digit == 6 {
        "6"
    } else if digit == 7 {
        "7"
    } else if digit == 8 {
        "8"
    } else {
        "9"
    };
    assert(text@ =~= seq![((digit + 48) as char)]);
    text
}

/// Appends the decimal digits of `value` to `text`.
pub fn push_decimal(text: &mut String, value: usize)
    ensures
        final(text)@ == old(text)@ + decimal_digits(value as nat),
    decreases value,
{
    if value >= 10 {
        push_decimal(text, value / 10);
    }
    let digit: u8 = (value % 10) as u8;
    text.append(digit_text(digit));
    assert(final(text)@ =~= old(text)@ + decimal_digits(value as nat));
}

} // verus!
