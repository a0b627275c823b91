//! Decimal text of unsigned 32-bit numbers: how a number is written, and which
//! texts are read as a number.
use vstd::prelude::*;
use vstd::string::StringExecFns;

verus! {

/// Whether `c` is one of the ten ASCII digits.
pub open spec fn is_digit(c: char) -> bool {
    48 <= c as u32 <= 57
}

/// The number that the digit `c` stands for; 0 for any other character.
pub open spec fn digit_value(c: char) -> nat {
    if is_digit(c) {
        (c as u32 - 48) as nat
    } else {
        0
    }
}

/// The digit that stands for `d`, for `d` below ten.
pub open spec fn digit_char(d: nat) -> char {
    if d == 0 {
        '0'
    } else if d == 1 {
        '1'
    } else if d == 2 {
        '2'
    } else if d == 3 {
        '3'
    } else if d == 4 {
        '4'
    } else if d == 5 {
        '5'
    } else if d == 6 {
        '6'
    } else if d == 7 {
        '7'
    } else if d == 8 {
        '8'
    } else {
        '9'
    }
}

/// Whether `s` holds digits only.
pub open spec fn all_digits(s: Seq<char>) -> bool {
    forall|i: int| 0 <= i < s.len() ==> is_digit(#[trigger] s[i])
}

/// The number that the digits `s` spell, the most significant first. Leading
/// zeros do not count; the empty text spells 0.
pub open spec fn decimal_value(s: Seq<char>) -> nat
    decreases s.len(),
{
    if s.len() == 0 {
        0
    } else {
        10 * decimal_value(s.drop_last()) + digit_value(s.last())
    }
}

/// The shortest decimal text of `n`: no sign, and no leading zero but for 0
/// itself.
pub open spec fn decimal_text(n: nat) -> Seq<char>
    decreases n,
{
    if n < 10 {
        seq![digit_char(n)]
    } else {
        decimal_text(n / 10).push(digit_char(n % 10))
    }
}

/// The text `s` without its leading `+`, if it has one.
pub open spec fn without_plus(s: Seq<char>) -> Seq<char> {
    if s.len() > 0 && s[0] == '+' {
        s.drop_first()
    } else {
        s
    }
}

/// What a text is read as: `Some(n)` for an optional `+` followed by one or
/// more digits that spell a number `n` of at most `u32::MAX`, and `None` for
/// any other text.
pub open spec fn parse_u32_spec(s: Seq<char>) -> Option<u32> {
    let digits = without_plus(s);
    if digits.len() > 0 && all_digits(digits) && decimal_value(digits) <= u32::MAX {
        Some(decimal_value(digits) as u32)
    } else {
        None
    }
}

/// A prefix of a text spells no larger a number than the whole text.
pub proof fn lemma_decimal_value_prefix(s: Seq<char>, n: int)
    requires
        0 <= n <= s.len(),
    ensures
        decimal_value(s.take(n)) <= decimal_value(s),
    decreases s.len() - n,
{
    if n < s.len() {
        lemma_decimal_value_prefix(s, n + 1);
        assert(s.take(n + 1).drop_last() =~= s.take(n));
    } else {
        assert(s.take(n) =~= s);
    }
}

/// The decimal text of a number is made of digits, at least one, and spells
/// that number.
pub proof fn lemma_decimal_text_spells(n: nat)
    ensures
        decimal_text(n).len() >= 1,
        all_digits(decimal_text(n)),
        decimal_value(decimal_text(n)) == n,
    decreases n,
{
    let last = digit_char(n % 10);
    assert(is_digit(last) && digit_value(last) == n % 10);
    if n < 10 {
        assert(decimal_text(n).drop_last() =~= Seq::<char>::empty());
        assert(decimal_value(decimal_text(n).drop_last()) == 0);
    } else {
        lemma_decimal_text_spells(n / 10);
        assert(decimal_text(n).drop_last() =~= decimal_text(n / 10));
    }
    assert(decimal_text(n).last() == last);
}

/// The decimal text of a number above zero does not start with a zero.
pub proof fn lemma_decimal_text_no_leading_zero(n: nat)
    requires
        n > 0,
    ensures
        decimal_text(n)[0] != '0',
    decreases n,
{
    if n >= 10 {
        lemma_decimal_text_no_leading_zero(n / 10);
        lemma_decimal_text_spells(n / 10);
    }
}

/// A number's decimal text is read back as that number.
pub proof fn lemma_parse_decimal_text(n: u32)
    ensures
        parse_u32_spec(decimal_text(n as nat)) == Some(n),
{
    lemma_decimal_text_spells(n as nat);
    assert(is_digit(decimal_text(n as nat)[0]));
}

/// Reads the characters of `text` from `from` up to `to` as a number.
pub fn parse_u32(text: &Vec<char>, from: usize, to: usize) -> (number: Option<u32>)
    requires
        from <= to <= text@.len(),
    ensures
        number == parse_u32_spec(text@.subrange(from as int, to as int)),
{
    let ghost field = text@.subrange(from as int, to as int);
    let mut at = from;
    if at < to && text[at] == '+' {
        at = at + 1;
    }
    let ghost digits = without_plus(field);
    proof {
        assert(digits =~= text@.subrange(at as int, to as int));
    }
    if at == to {
        return None;
    }
    let start = at;
    let mut value: u32 = 0;
    proof {
        assert(digits.take(0) =~= Seq::<char>::empty());
    }
    while at < to
        invariant
            start <= at <= to <= text@.len(),
            field == text@.subrange(from as int, to as int),
            digits == without_plus(field),
            digits == text@.subrange(start as int, to as int),
            all_digits(digits.take(at - start)),
            value == decimal_value(digits.take(at - start)),
        decreases to - at,
    {
        let code = text[at] as u32;
        let ghost seen = digits.take(at - start);
        proof {
            assert(digits[at - start] == text@[at as int]);
            assert(digits.take(at - start + 1) =~= seen.push(text@[at as int]));
            assert(seen.push(text@[at as int]).drop_last() =~= seen);
        }
        if code < 48 || code > 57 {
            return None;
        }
        let digit = code - 48;
        if value > (u32::MAX - digit) / 10 {
            proof {
                lemma_decimal_value_prefix(digits, at - start + 1);
            }
            return None;
        }
        value = value * 10 + digit;
        at = at + 1;
    }
    proof {
        assert(digits.take(at - start) =~= digits);
    }
    Some(value)
}

/// The one-character text of the digit for `d`.
fn digit_text(d: u32) -> (text: &'static str)
    requires
        d < 10,
    ensures
        text@ == seq![digit_char(d as nat)],
{
    proof {
        reveal_strlit("0");
        reveal_strlit("1");
        reveal_strlit("2");
        reveal_strlit("3");
        reveal_strlit("4");
        reveal_strlit("5");
        reveal_strlit("6");
        reveal_strlit("7");
        reveal_strlit("8");
        reveal_strlit("9");
    }
    let text = if d == 0 {
        "0"
    } else if d == 1 {
        "1"
    } else if d == 2 {
        "2"
    } else if d == 3 {
        "3"
    } else if d == 4 {
        "4"
    } else if d == 5 {
        "5"
    } else if d == 6 {
        "6"
    } else if d == 7 {
        "7"
    } else if d == 8 {
        "8"
    } else {
        "9"
    };
    assert(text@ =~= seq![digit_char(d as nat)]);
    text
}

/// Appends the decimal text of `n` to `out`.
pub fn push_decimal(out: &mut String, n: u32)
    ensures
        final(out)@ == old(out)@ + decimal_text(n as nat),
    decreases n,
{
    if n >= 10 {
        push_decimal(out, n / 10);
    }
    out.append(digit_text(n % 10));
    proof {
        let before = old(out)@;
        if n >= 10 {
            assert(out@ =~= before + decimal_text((n / 10) as nat).push(digit_char((n % 10) as nat)));
        } else {
            assert(out@ =~= before + seq![digit_char(n as nat)]);
        }
    }
}

} // verus!
