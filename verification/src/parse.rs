//! Numbers in settings.

use vstd::prelude::*;
use vstd::string::*;

verus! {

pub open spec fn is_digit(c: char) -> bool {
    '0' <= c <= '9'
}

/// Value of decimal digits.
pub open spec fn decimal(digits: Seq<char>) -> nat
    decreases digits.len(),
{
    if digits.len() == 0 {
        0
    } else {
        10 * decimal(digits.drop_last()) + (digits.last() as int - '0' as int) as nat
    }
}

/// The number without its optional plus sign.
pub open spec fn unsigned(text: Seq<char>) -> Seq<char> {
    if text.len() > 0 && text[0] == '+' {
        text.skip(1)
    } else {
        text
    }
}

/// Whether the text is a number: digits, with an optional plus sign before them.
pub open spec fn is_number(text: Seq<char>) -> bool {
    &&& unsigned(text).len() > 0
    &&& forall|i: int| 0 <= i < unsigned(text).len() ==> is_digit(#[trigger] unsigned(text)[i])
}

/// The number that the text spells, if it fits.
pub open spec fn number(text: Seq<char>) -> Option<usize> {
    if is_number(text) && decimal(unsigned(text)) <= usize::MAX {
        Some(decimal(unsigned(text)) as usize)
    } else {
        None
    }
}

/// Parses decimal digits, with an optional plus sign before them.
pub fn parse_usize(text: &str) -> (parsed: Option<usize>)
    ensures
        parsed == number(text@),
{
    let len: usize = text.unicode_len();
    if len == 0 {
        return None;
    }
    let start: usize = if text.get_char(0) == '+' {
        1
    } else {
        0
    };
    let ghost digits = unsigned(text@);
    if start == len {
        return None;
    }
    let mut value: usize = 0;
    let mut fits: bool = true;
    let mut i: usize = start;
    while i < len
        invariant
            len == text@.len(),
            start <= i <= len,
            start == if text@[0] == '+' {
                1int
            } else {
                0
            },
            0 < len,
            digits == unsigned(text@),
            digits.len() == len - start,
            forall|k: int| 0 <= k < digits.len() ==> digits[k] == text@[k + start],
            forall|k: int| 0 <= k < i - start ==> is_digit(#[trigger] digits[k]),
            fits ==> value == decimal(digits.take(i - start)),
            !fits ==> decimal(digits.take(i - start)) > usize::MAX,
        decreases len - i,
    {
        let c = text.get_char(i);
        assert(c == digits[i - start]);
        if c < '0' || c > '9' {
            assert(!is_digit(digits[i - start]));
            return None;
        }
        let digit: usize = (c as u32 - '0' as u32) as usize;
        assert(digits.take(i - start + 1).drop_last() =~= digits.take(i - start));
        assert(digits.take(i - start + 1).last() == c);
        if fits {
            match value.checked_mul(10) {
                Some(tens) => match tens.checked_add(digit) {
                    Some(sum) => {
                        value = sum;
                    },
                    None => {
                        fits = false;
                    },
                },
                None => {
                    fits = false;
                },
            }
        }
        i = i + 1;
    }
    assert(digits.take(len - start) =~= digits);
    if fits {
        Some(value)
    } else {
        None
    }
}

/// One more digit makes ten times the number and the digit, as far as that fits. Nothing else may
/// follow a digit, and a number that does not fit is not made to fit.
pub proof fn law_one_more_digit(
    text: &str,
    longer: &str,
    c: char,
    parsed: Option<usize>,
    again: Option<usize>,
)
    requires
        longer@ == text@.push(c),
        call_ensures(parse_usize, (text,), parsed),
        call_ensures(parse_usize, (longer,), again),
    ensures
        parsed is Some && '0' <= c <= '9' && parsed->0 * 10 + (c as int - '0' as int) <= usize::MAX
            ==> again is Some && again->0 == parsed->0 * 10 + (c as int - '0' as int),
        parsed is Some && parsed->0 * 10 + (c as int - '0' as int) > usize::MAX ==> again is None,
        !('0' <= c <= '9') ==> again is None,
        parsed is None && text@.len() > 0 && !(text@.len() == 1 && text@[0] == '+')
            ==> again is None,
{
    let digits = unsigned(text@);
    let more = unsigned(longer@);
    if text@.len() > 0 {
        assert(longer@[0] == text@[0]);
        assert(more =~= digits.push(c));
        assert(more.drop_last() =~= digits);
        assert(more[digits.len() as int] == c);
        assert(decimal(more) == 10 * decimal(digits) + (c as int - '0' as int) as nat);
        if is_number(text@) && is_digit(c) {
            assert forall|i: int| 0 <= i < more.len() implies is_digit(#[trigger] more[i]) by {
                if i < digits.len() {
                    assert(digits[i] == more[i]);
                }
            }
        }
        if is_number(longer@) && digits.len() > 0 {
            assert forall|i: int| 0 <= i < digits.len() implies is_digit(#[trigger] digits[i]) by {
                assert(more[i] == digits[i]);
            }
            assert(is_number(text@));
        }
        if is_number(longer@) {
            assert(is_digit(more[digits.len() as int]));
        }
        if digits.len() == 0 {
            assert(text@.len() == 1 && text@[0] == '+');
        }
    } else {
        assert(!is_number(text@));
        if is_number(longer@) {
            if c == '+' {
                assert(more.len() == 0);
            } else {
                assert(more[0] == c);
            }
        }
    }
}

/// A digit alone is the number that it is, and may have a plus sign before it. Nothing at all is no
/// number, and neither is a sign alone.
pub proof fn law_one_digit(text: &str, signed: &str, parsed: Option<usize>, again: Option<usize>)
    requires
        text@.len() <= 1,
        signed@ == seq!['+'] + text@,
        call_ensures(parse_usize, (text,), parsed),
        call_ensures(parse_usize, (signed,), again),
    ensures
        parsed is Some <==> text@.len() == 1 && '0' <= text@[0] <= '9',
        parsed is Some ==> parsed->0 == text@[0] as int - '0' as int,
        again == parsed,
{
    let digits = unsigned(text@);
    assert(unsigned(signed@) =~= text@);
    reveal_with_fuel(decimal, 2);
    if text@.len() == 1 {
        if text@[0] != '+' {
            assert(digits == text@);
        }
        if is_digit(text@[0]) {
            assert forall|i: int| 0 <= i < digits.len() implies is_digit(#[trigger] digits[i]) by {
            }
            assert forall|i: int| 0 <= i < unsigned(signed@).len() implies is_digit(
                #[trigger] unsigned(signed@)[i],
            ) by {
            }
        } else {
            assert(unsigned(signed@)[0] == text@[0]);
            if text@[0] != '+' {
                assert(digits[0] == text@[0]);
            }
        }
    }
}

} // verus!
