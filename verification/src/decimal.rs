//! Integers written in base ten.

use vstd::prelude::*;
use vstd::string::StringExecFns;
use vstd::utf8::{encode_utf8, is_ascii_chars, is_ascii_chars_encode_utf8};
use crate::ascii::{MINUS, NINE, ZERO};

verus! {

/// The byte of the digit `value`, for `value` below ten.
pub open spec fn digit_byte(value: nat) -> u8 {
    (ZERO + value) as u8
}

/// The digits of `value` in base ten, most significant first and without
/// leading zeros, as bytes.
pub open spec fn digit_bytes(value: nat) -> Seq<u8>
    decreases value,
{
    if value < 10 {
        seq![digit_byte(value)]
    } else {
        digit_bytes(value / 10).push(digit_byte(value % 10))
    }
}

/// `value` in base ten as bytes: a `-` where it is negative, then its digits.
pub open spec fn decimal_bytes(value: int) -> Seq<u8> {
    if value < 0 {
        seq![MINUS] + digit_bytes((-value) as nat)
    } else {
        digit_bytes(value as nat)
    }
}

/// `value` in base ten as text.
pub open spec fn decimal(value: int) -> Seq<char> {
    decimal_bytes(value).map_values(|byte: u8| byte as char)
}

/// The digits of a number: one at least, each of them from `0` to `9`, and the
/// first one `0` for zero alone.
pub proof fn lemma_digit_bytes_are_digits(value: nat)
    ensures
        digit_bytes(value).len() >= 1,
        forall|i: int|
            0 <= i < digit_bytes(value).len() ==> ZERO <= #[trigger] digit_bytes(value)[i] <= NINE,
        digit_bytes(value)[0] == ZERO <==> value == 0,
        value == 0 ==> digit_bytes(value).len() == 1,
    decreases value,
{
    if value >= 10 {
        lemma_digit_bytes_are_digits(value / 10);
    }
}

/// An integer in base ten starts with `-` or with a digit.
pub proof fn lemma_decimal_starts(value: int)
    ensures
        decimal_bytes(value).len() >= 1,
        decimal_bytes(value)[0] == MINUS || ZERO <= decimal_bytes(value)[0] <= NINE,
{
    if value >= 0 {
        lemma_digit_bytes_are_digits(value as nat);
    }
}

/// The text of an integer in base ten is made of its bytes as UTF-8.
pub proof fn lemma_decimal_encodes_as_its_bytes(value: int)
    ensures
        encode_utf8(decimal(value)) == decimal_bytes(value),
{
    let bytes = decimal_bytes(value);
    let chars = decimal(value);
    let size: nat = if value < 0 {
        (-value) as nat
    } else {
        value as nat
    };
    lemma_digit_bytes_are_digits(size);
    assert forall|i: int| 0 <= i < bytes.len() implies #[trigger] bytes[i] < 0x80 by {
        if value < 0 && i > 0 {
            assert(bytes[i] == digit_bytes(size)[i - 1]);
        }
    }
    assert forall|i: int| 0 <= i < chars.len() implies '\0' <= #[trigger] chars[i] <= '\u{7f}'
        && chars[i] as u8 == bytes[i] by {
        assert(bytes[i] < 0x80);
        assert(chars[i] == bytes[i] as char);
    }
    assert(is_ascii_chars(chars));
    is_ascii_chars_encode_utf8(chars);
    assert(encode_utf8(chars) =~= bytes);
}

/// The text of one digit.
fn digit_text(value: u64) -> (text: &'static str)
    requires
        value < 10,
    ensures
        text@ == seq![digit_byte(value as nat) as char],
{
    proof {
        reveal_strlit("0");
        reveal_strlit("1");
        reveal_strlit("2");
        reveal_strlit("3");
        reveal_strlit("4");
        reveal_strlit("5");
        reveal_strlit("6");
        reveal_strlit("7");
        reveal_strlit("8");
        reveal_strlit("9");
    }
    let text = if value == 0 {
        "0"
    } else if value == 1 {
        "1"
    } else if value == 2 {
        "2"
    } else if value == 3 {
        "3"
    } else if value == 4 {
        "4"
    } else if value == 5 {
        "5"
    } else if value == 6 {
        "6"
    } else if value == 7 {
        "7"
    } else if value == 8 {
        "8"
    } else {
        "9"
    };
    assert(text@ =~= seq![digit_byte(value as nat) as char]);
    text
}

/// Appends the digits of `value` to `text`.
pub fn push_digits(text: &mut String, value: u64)
    ensures
        final(text)@ == old(text)@ + digit_bytes(value as nat).map_values(|byte: u8| byte as char),
    decreases value,
{
    if value >= 10 {
        push_digits(text, value / 10);
    }
    let ghost before = text@;
    text.append(digit_text(value % 10));
    proof {
        let as_char = |byte: u8| byte as char;
        let last = digit_byte((value % 10) as nat);
        if value >= 10 {
            let front = digit_bytes((value / 10) as nat);
            assert(front.push(last).map_values(as_char) =~= front.map_values(as_char) + seq![
                last as char,
            ]);
            assert(old(text)@ + front.map_values(as_char) + seq![last as char] =~= old(text)@ + (
            front.map_values(as_char) + seq![last as char]));
        } else {
            assert(seq![last].map_values(as_char) =~= seq![last as char]);
        }
    }
}

/// `value` in base ten.
pub fn to_decimal(value: i64) -> (text: String)
    ensures
        text@ == decimal(value as int),
{
    let mut text = String::new();
    if value < 0 {
        proof {
            reveal_strlit("-");
        }
        text.append("-");
        let size: u64 = if value == i64::MIN {
            0x8000_0000_0000_0000
        } else {
            (-value) as u64
        };
        push_digits(&mut text, size);
        proof {
            let as_char = |byte: u8| byte as char;
            let digits = digit_bytes(size as nat);
            assert("-"@ =~= seq!['-']);
            assert((seq![MINUS] + digits).map_values(as_char) =~= seq!['-'] + digits.map_values(
                as_char,
            ));
        }
    } else {
        push_digits(&mut text, value as u64);
        assert(text@ =~= decimal(value as int));
    }
    text
}

} // verus!
