//! What a session is asked to do: the mode of operation and the duration.
//!
//! Both arrive as texts from the command line. The mode is one of two words;
//! the duration is an unsigned decimal number of seconds, and a text that is
//! none stands for the default.

use vstd::prelude::*;
use vstd::string::StringExecFns;

verus! {

/// The duration, in seconds, of a session that was not given a usable one.
pub const DEFAULT_DURATION: u64 = 1;

/// What the program is asked to do.
#[derive(Clone, Copy, Debug, PartialEq, Eq, Structural)]
pub enum Mode {
    /// Collect prices from the feed, then summarize and persist them.
    Collect,
    /// Read back what an earlier run persisted.
    ReadBack,
}

/// The mode that a word selects.
pub open spec fn mode_of(word: Seq<char>) -> Option<Mode> {
    if word == "cache"@ {
        Some(Mode::Collect)
    } else if word == "read"@ {
        Some(Mode::ReadBack)
    } else {
        None
    }
}

/// Selects the mode by its word: `cache` collects, `read` reads back, and
/// every other word selects nothing.
pub fn parse_mode(word: &str) -> (mode: Option<Mode>)
    ensures
        mode == mode_of(word@),
{
    let word = String::from_str(word);
    if word == String::from_str("cache") {
        Some(Mode::Collect)
    } else if word == String::from_str("read") {
        Some(Mode::ReadBack)
    } else {
        None
    }
}

/// Whether a character is a decimal digit.
pub open spec fn is_digit(c: char) -> bool {
    '0' <= c <= '9'
}

/// Whether a text holds decimal digits and nothing else.
pub open spec fn all_digits(text: Seq<char>) -> bool {
    forall|i: int| 0 <= i < text.len() ==> is_digit(#[trigger] text[i])
}

/// The number that a sequence of decimal digits denotes, most significant
/// digit first; zero for no digits.
pub open spec fn digits_value(digits: Seq<char>) -> nat
    decreases digits.len(),
{
    if digits.len() == 0 {
        0
    } else {
        digits_value(digits.drop_last()) * 10 + (digits.last() as u32 - '0' as u32) as nat
    }
}

/// The number that a text denotes as an unsigned decimal: an optional `+`,
/// then one or more digits and nothing else, with a value that a `u64` can
/// hold. Leading zeros count for nothing; blanks, a `-` and an empty text
/// denote no number.
pub open spec fn unsigned_decimal(text: Seq<char>) -> Option<u64> {
    let digits = if text.len() > 0 && text[0] == '+' {
        text.drop_first()
    } else {
        text
    };
    if digits.len() > 0 && all_digits(digits) && digits_value(digits) <= u64::MAX {
        Some(digits_value(digits) as u64)
    } else {
        None
    }
}

/// The duration that a text asks for: the number it denotes, or the default
/// where it denotes none.
pub open spec fn duration_of(text: Seq<char>) -> u64 {
    match unsigned_decimal(text) {
        Some(seconds) => seconds,
        None => DEFAULT_DURATION,
    }
}

/// Appending digits never makes a number smaller.
proof fn lemma_digits_value_grows(digits: Seq<char>, n: int)
    requires
        0 <= n <= digits.len(),
        all_digits(digits),
    ensures
        digits_value(digits.take(n)) <= digits_value(digits),
    decreases digits.len() - n,
{
    if n < digits.len() {
        lemma_digits_value_grows(digits, n + 1);
        assert(digits.take(n + 1).drop_last() == digits.take(n));
        assert(digits.take(n + 1).last() == digits[n]);
        assert(is_digit(digits[n]));
    } else {
        assert(digits.take(n) == digits);
    }
}

/// A text with a character outside ASCII denotes no number.
proof fn lemma_not_ascii_not_a_number(text: Seq<char>)
    requires
        !vstd::utf8::is_ascii_chars(text),
    ensures
        unsigned_decimal(text) is None,
{
    let i = choose|i: int| 0 <= i < text.len() && !('\0' <= #[trigger] text[i] <= '\u{7f}');
    assert(!is_digit(text[i]) && text[i] != '+');
    if text[0] == '+' {
        assert(i > 0);
        assert(text.drop_first()[i - 1] == text[i]);
        assert(!all_digits(text.drop_first()));
    } else {
        assert(!all_digits(text));
    }
}

/// Reads an unsigned decimal number.
pub fn parse_unsigned(text: &str) -> (number: Option<u64>)
    ensures
        number == unsigned_decimal(text@),
{
    if !text.is_ascii() {
        proof {
            lemma_not_ascii_not_a_number(text@);
        }
        return None;
    }
    let bytes = text.as_bytes();
    proof {
        vstd::string::is_ascii_spec_bytes(text);
    }
    let start: usize = if bytes.len() > 0 && bytes[0] == 0x2b {
        1
    } else {
        0
    };
    let ghost digits = if start == 1 {
        text@.drop_first()
    } else {
        text@
    };
    if start == bytes.len() {
        return None;
    }
    let mut value: u64 = 0;
    let mut i: usize = start;
    while i < bytes.len()
        invariant
            start <= i <= bytes.len(),
            bytes@.len() == text@.len(),
            forall|k: int| 0 <= k < text@.len() ==> bytes@[k] == #[trigger] text@[k] as u8,
            vstd::utf8::is_ascii_chars(text@),
            digits == if text@.len() > 0 && text@[0] == '+' {
                text@.drop_first()
            } else {
                text@
            },
            digits.len() == bytes.len() - start,
            digits.len() > 0,
            forall|k: int| 0 <= k < digits.len() ==> digits[k] == text@[k + start],
            all_digits(digits.take(i - start)),
            value == digits_value(digits.take(i - start)),
        decreases bytes.len() - i,
    {
        let byte = bytes[i];
        let ghost c = text@[i as int];
        assert(byte == c as u8 && '\0' <= c <= '\u{7f}');
        assert(digits[i - start] == c);
        if byte < 0x30 || byte > 0x39 {
            assert(!is_digit(digits[i - start]));
            assert(!all_digits(digits));
            return None;
        }
        assert(is_digit(c));
        let ghost longer = digits.take(i - start + 1);
        assert(longer.drop_last() == digits.take(i - start));
        assert(longer.last() == c);
        assert(all_digits(longer)) by {
            assert forall|k: int| 0 <= k < longer.len() implies is_digit(#[trigger] longer[k]) by {
                if k < i - start {
                    assert(longer[k] == digits.take(i - start)[k]);
                }
            }
        }
        let grown = match value.checked_mul(10) {
            Some(tenfold) => tenfold.checked_add((byte - 0x30) as u64),
            None => None,
        };
        match grown {
            Some(next) => {
                value = next;
            },
            None => {
                proof {
                    assert(digits_value(longer) == value * 10 + (byte - 0x30));
                    assert(digits_value(longer) > u64::MAX);
                    if all_digits(digits) {
                        lemma_digits_value_grows(digits, i - start + 1);
                    }
                }
                return None;
            },
        }
        i = i + 1;
    }
    assert(digits.take(i - start) == digits);
    Some(value)
}

/// The duration that the text of the command line asks for, in seconds.
pub fn parse_duration(text: &str) -> (seconds: u64)
    ensures
        seconds == duration_of(text@),
{
    match parse_unsigned(text) {
        Some(seconds) => seconds,
        None => DEFAULT_DURATION,
    }
}

} // verus!
