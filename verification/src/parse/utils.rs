//! The parsers of single fields.

use vstd::prelude::*;

verus! {

/// The value that a field held where another was expected.
#[derive(Debug)]
pub enum Unexpected {
    Unsigned(u64),
    Str(String),
}

/// A field held a value that its parser does not accept.
#[derive(Debug)]
pub struct InvalidValue {
    pub unexpected: Unexpected,
    pub expected: &'static str,
}

/// What `bool_from_int` expects.
pub const ZERO_OR_ONE: &'static str = "zero or one";

/// What `parse_option_int` expects.
pub const NULL_OR_INTEGER: &'static str = "\\N or integer";

/// How an absent value is written.
pub const NULL: &'static str = "\\N";

/// Reads a flag that is written as a number: 0 is false, 1 is true, and
/// nothing else is a flag.
pub fn bool_from_int(value: u8) -> (flag: Result<bool, InvalidValue>)
    ensures
        value == 0 ==> flag == Ok::<bool, InvalidValue>(false),
        value == 1 ==> flag == Ok::<bool, InvalidValue>(true),
        value > 1 ==> flag == Err::<bool, InvalidValue>(
            InvalidValue { unexpected: Unexpected::Unsigned(value as u64), expected: ZERO_OR_ONE },
        ),
{
    if value == 0 {
        Ok(false)
    } else if value == 1 {
        Ok(true)
    } else {
        Err(InvalidValue { unexpected: Unexpected::Unsigned(value as u64), expected: ZERO_OR_ONE })
    }
}

/// The value of a decimal digit.
pub open spec fn digit_value(c: char) -> nat {
    (c as u32 - '0' as u32) as nat
}

/// Whether a character is one of the ten decimal digits.
pub open spec fn is_digit(c: char) -> bool {
    '0' <= c <= '9'
}

/// Whether a text is made of decimal digits alone.
pub open spec fn all_digits(s: Seq<char>) -> bool {
    forall|i: int| 0 <= i < s.len() ==> is_digit(#[trigger] s[i])
}

/// The number that a text of decimal digits writes.
pub open spec fn digits_value(s: Seq<char>) -> nat
    decreases s.len(),
{
    if s.len() == 0 {
        0
    } else {
        digits_value(s.drop_last()) * 10 + digit_value(s.last())
    }
}

/// The digits of a number text: the text without a leading plus sign.
pub open spec fn unsigned_part(s: Seq<char>) -> Seq<char> {
    if s.len() > 0 && s[0] == '+' {
        s.subrange(1, s.len() as int)
    } else {
        s
    }
}

/// The 16-bit number that a text writes: an optional plus sign and then one
/// or more decimal digits whose value fits in 16 bits.
pub open spec fn decimal_u16(s: Seq<char>) -> Option<u16> {
    let digits = unsigned_part(s);
    if digits.len() > 0 && all_digits(digits) && digits_value(digits) <= u16::MAX {
        Some(digits_value(digits) as u16)
    } else {
        None
    }
}

/// A longer text of digits writes a number that is no smaller.
pub proof fn lemma_digits_value_grows(s: Seq<char>, n: int)
    requires
        0 <= n <= s.len(),
    ensures
        digits_value(s.take(n)) <= digits_value(s),
    decreases s.len(),
{
    if n < s.len() {
        assert(s.drop_last().take(n) =~= s.take(n));
        lemma_digits_value_grows(s.drop_last(), n);
    } else {
        assert(s.take(n) =~= s);
    }
}

/// Reads a 16-bit number as std's `str::parse::<u16>` does.
pub fn parse_u16(text: &str) -> (number: Option<u16>)
    ensures
        number == decimal_u16(text@),
{
    let len = text.unicode_len();
    if len == 0 {
        return None;
    }
    let start: usize = if text.get_char(0) == '+' {
        1
    } else {
        0
    };
    if start == len {
        return None;
    }
    let ghost digits = unsigned_part(text@);
    let mut value: u32 = 0;
    let mut at: usize = start;
    proof {
        assert(digits.take(0) =~= Seq::empty());
    }
    while at < len
        invariant
            len == text@.len(),
            start <= at <= len,
            start <= 1,
            digits == unsigned_part(text@),
            digits.len() == len - start,
            forall|i: int| 0 <= i < digits.len() ==> digits[i] == text@[i + start],
            all_digits(digits.take(at - start)),
            value == digits_value(digits.take(at - start)),
            value <= u16::MAX,
        decreases len - at,
    {
        let c = text.get_char(at);
        let ghost upto = digits.take(at - start + 1);
        proof {
            assert(upto.drop_last() =~= digits.take(at - start));
            assert(upto.last() == c);
        }
        if c < '0' || c > '9' {
            proof {
                assert(!is_digit(digits[at - start]));
            }
            return None;
        }
        let digit: u32 = c as u32 - '0' as u32;
        let next: u32 = value * 10 + digit;
        if next > 65535 {
            proof {
                lemma_digits_value_grows(digits, at - start + 1);
            }
            return None;
        }
        proof {
            assert forall|i: int| 0 <= i < upto.len() implies is_digit(#[trigger] upto[i]) by {
                if i < upto.len() - 1 {
                    assert(digits.take(at - start)[i] == upto[i]);
                }
            }
        }
        value = next;
        at = at + 1;
    }
    proof {
        assert(digits.take(len - start) =~= digits);
    }
    Some(value as u16)
}

/// Reads a number that may be absent: the absent value reads as 0, a number
/// as itself, and anything else is refused.
pub fn parse_option_int(text: &str) -> (number: Result<u16, InvalidValue>)
    ensures
        match number {
            Ok(v) => if text@ == NULL@ {
                v == 0
            } else {
                decimal_u16(text@) == Some(v)
            },
            Err(e) => text@ != NULL@ && decimal_u16(text@).is_none() && e.expected == NULL_OR_INTEGER && match e.unexpected {
                Unexpected::Str(s) => s@ == text@,
                Unexpected::Unsigned(_) => false,
            },
        },
{
    if is_null(text) {
        Ok(0)
    } else {
        match parse_u16(text) {
            Some(v) => Ok(v),
            None => Err(InvalidValue { unexpected: Unexpected::Str(text.to_owned()), expected: NULL_OR_INTEGER }),
        }
    }
}

/// Whether a text is the absent value.
pub fn is_null(text: &str) -> (null: bool)
    ensures
        null == (text@ == NULL@),
{
    proof {
        reveal_strlit("\\N");
    }
    let len = text.unicode_len();
    if len != 2 {
        return false;
    }
    let first = text.get_char(0);
    let second = text.get_char(1);
    proof {
        if first == '\\' && second == 'N' {
            assert(text@ =~= NULL@);
        }
    }
    first == '\\' && second == 'N'
}

/// What became of a line of a file.
#[derive(Debug, Clone, Copy, PartialEq, Eq, Structural)]
pub enum Line {
    /// The line could not be parsed.
    Unreadable,
    /// The line was parsed and the check refused the record.
    Refused,
    /// The line was parsed and the check accepted the record.
    Accepted,
}

/// What the reader does after a line.
#[derive(Debug, Clone, Copy, PartialEq, Eq, Structural)]
pub struct Next {
    /// The record of the line is kept.
    pub keep: bool,
    /// No further line is read.
    pub stop: bool,
}

/// Decides what the reader does after a line, `kept` records having been
/// kept before it. An accepted record is kept. A line that could not be
/// parsed never ends the reading; after any other line the reading ends once
/// as many records are kept as were asked for.
pub fn after_line(kept: usize, max_count: usize, line: Line) -> (next: Next)
    ensures
        next.keep == (line == Line::Accepted),
        next.stop == (line != Line::Unreadable && kept + (if next.keep {
            1int
        } else {
            0int
        }) >= max_count),
{
    match line {
        Line::Unreadable => Next { keep: false, stop: false },
        Line::Refused => Next { keep: false, stop: kept >= max_count },
        Line::Accepted => Next { keep: true, stop: kept >= max_count || kept + 1 >= max_count },
    }
}

} // verus!
