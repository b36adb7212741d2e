//! Whole numbers as decimal text: reading them and writing them.

use vstd::prelude::*;
use vstd::string::StringExecFns;

verus! {

/// The value of a decimal digit; `None` for any other character.
pub open spec fn decimal_digit(c: char) -> Option<nat> {
    if '0' <= c <= '9' {
        Some((c as u32 - '0' as u32) as nat)
    } else {
        None
    }
}

/// Whether every character of `s` is a decimal digit.
pub open spec fn all_decimal(s: Seq<char>) -> bool {
    forall|i: int| 0 <= i < s.len() ==> (#[trigger] decimal_digit(s[i])) is Some
}

/// The number that the digits of `s` spell in base 10, the first digit
/// counting most.
pub open spec fn decimal_number(s: Seq<char>) -> nat
    decreases s.len(),
{
    if s.len() == 0 {
        0
    } else {
        10 * decimal_number(s.drop_last()) + decimal_digit(s.last()).unwrap()
    }
}

/// The digits of an unsigned number's text: what follows one leading plus
/// sign, or everything where there is none.
pub open spec fn unsigned_digits(s: Seq<char>) -> Seq<char> {
    if s.len() > 0 && s[0] == '+' {
        s.drop_first()
    } else {
        s
    }
}

/// Whether `s` is an unsigned number in text: an optional plus sign, then one
/// decimal digit or more, and nothing else.
pub open spec fn is_unsigned(s: Seq<char>) -> bool {
    unsigned_digits(s).len() > 0 && all_decimal(unsigned_digits(s))
}

/// The number that the text `s` stands for.
pub open spec fn unsigned_value(s: Seq<char>) -> nat {
    decimal_number(unsigned_digits(s))
}

/// The character for the digit `d`.
pub open spec fn digit_char(d: nat) -> char {
    ('0' as u32 + d) as char
}

/// The decimal text of `n`: no sign, and no leading zero but for 0 itself.
pub open spec fn decimal_text(n: nat) -> Seq<char>
    decreases n,
{
    if n < 10 {
        seq![digit_char(n)]
    } else {
        decimal_text(n / 10).push(digit_char(n % 10))
    }
}

/// The number spelled by the first `i` digits is at most the number spelled
/// by all of them.
pub proof fn lemma_decimal_number_grows(s: Seq<char>, i: int)
    requires
        all_decimal(s),
        0 <= i <= s.len(),
    ensures
        decimal_number(s.take(i)) <= decimal_number(s),
    decreases s.len() - i,
{
    if i == s.len() {
        assert(s.take(i) == s);
    } else {
        lemma_decimal_number_grows(s, i + 1);
        assert(s.take(i + 1).drop_last() == s.take(i));
        assert(decimal_digit(s[i]) is Some);
    }
}

/// Reads an unsigned number of at most `limit` from decimal text. The text
/// may open with one plus sign; leading zeros count for nothing.
pub fn parse_unsigned(s: &str, limit: u64) -> (parsed: Option<u64>)
    ensures
        parsed is Some <==> is_unsigned(s@) && unsigned_value(s@) <= limit,
        parsed matches Some(v) ==> v == unsigned_value(s@),
{
    let ghost digits = unsigned_digits(s@);
    if !s.is_ascii() {
        proof {
            let i = choose|i: int| 0 <= i < s@.len() && !('\0' <= #[trigger] s@[i] <= '\u{7f}');
            if digits.len() == s@.len() {
                assert(decimal_digit(digits[i]) is None);
            } else if i > 0 {
                assert(digits[i - 1] == s@[i]);
                assert(decimal_digit(digits[i - 1]) is None);
            }
        }
        return None;
    }
    let bytes = s.as_bytes();
    proof {
        vstd::string::is_ascii_spec_bytes(s);
    }
    assert(bytes@.len() == s@.len());
    let len: usize = bytes.len();
    let start: usize = if len > 0 && bytes[0] == 43 {
        1
    } else {
        0
    };
    assert(start == 1 <==> s@.len() > 0 && s@[0] == '+') by {
        if s@.len() > 0 {
            assert('\0' <= s@[0] <= '\u{7f}');
            assert(bytes@[0] == s@[0] as u8);
        }
    }
    assert(digits == s@.skip(start as int));
    if start == len {
        return None;
    }
    let mut value: u64 = 0;
    let mut i: usize = start;
    while i < len
        invariant
            start <= i <= len,
            len == s@.len(),
            bytes@.len() == len,
            digits == unsigned_digits(s@),
            digits == s@.skip(start as int),
            forall|k: int| 0 <= k < len ==> bytes@[k] == (#[trigger] s@[k]) as u8,
            vstd::utf8::is_ascii_chars(s@),
            all_decimal(digits.take(i - start)),
            value == decimal_number(digits.take(i - start)),
            value <= limit,
        decreases len - i,
    {
        let b: u8 = bytes[i];
        let ghost c = s@[i as int];
        assert(b == c as u8 && '\0' <= c <= '\u{7f}');
        assert(digits[i - start] == c);
        let ghost before = digits.take(i - start);
        let ghost after = digits.take(i - start + 1);
        assert(after.drop_last() == before);
        assert(after.last() == c);
        if b < 48 || b > 57 {
            assert(decimal_digit(digits[i - start]) is None);
            return None;
        }
        assert(decimal_digit(c) == Some((b - 48) as nat));
        assert forall|k: int| 0 <= k < after.len() implies (#[trigger] decimal_digit(
            after[k],
        )) is Some by {
            if k < i - start {
                assert(after[k] == before[k]);
            }
        }
        let next: u128 = value as u128 * 10 + (b - 48) as u128;
        assert(next == decimal_number(after));
        if next > limit as u128 {
            proof {
                if all_decimal(digits) {
                    lemma_decimal_number_grows(digits, i - start + 1);
                }
            }
            return None;
        }
        value = next as u64;
        i = i + 1;
    }
    assert(digits.take(len - start) == digits);
    Some(value)
}

/// The text of one decimal digit.
fn digit_text(d: u64) -> (text: &'static str)
    requires
        d < 10,
    ensures
        text@ == seq![digit_char(d as nat)],
{
    proof {
        reveal_strlit("0");
        reveal_strlit("1");
        reveal_strlit("2");
        reveal_strlit("3");
        reveal_strlit("4");
        reveal_strlit("5");
        reveal_strlit("6");
        reveal_strlit("7");
        reveal_strlit("8");
        reveal_strlit("9");
    }
    let text: &'static str = if d == 0 {
        "0"
    } else if d == 1 {
        "1"
    } else if d == 2 {
        "2"
    } else if d == 3 {
        "3"
    } else if d == 4 {
        "4"
    } else if d == 5 {
        "5"
    } else if d == 6 {
        "6"
    } else if d == 7 {
        "7"
    } else if d == 8 {
        "8"
    } else {
        "9"
    };
    assert(text@ =~= seq![digit_char(d as nat)]);
    text
}

/// Writes `n` as decimal text.
pub fn format_unsigned(n: u64) -> (text: String)
    ensures
        text@ == decimal_text(n as nat),
{
    let mut text: String = String::from_str(digit_text(n % 10));
    let mut rest: u64 = n / 10;
    while rest > 0
        invariant
            decimal_text(n as nat) == if rest == 0 {
                text@
            } else {
                decimal_text(rest as nat) + text@
            },
        decreases rest,
    {
        let ghost old_text = text@;
        text = String::from_str(digit_text(rest % 10)).concat(text.as_str());
        proof {
            if rest >= 10 {
                assert(decimal_text(rest as nat) + old_text =~= decimal_text((rest / 10) as nat)
                    + text@);
            }
        }
        rest = rest / 10;
    }
    text
}

} // verus!
