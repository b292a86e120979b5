//! Numbers as decimal text: writing them, measuring them, reading them.

use vstd::prelude::*;

verus! {

/// The character of the decimal digit `d`.
pub open spec fn digit_char(d: int) -> char {
    if d == 0 {
        '0'
    } else if d == 1 {
        '1'
    } else if d == 2 {
        '2'
    } else if d == 3 {
        '3'
    } else if d == 4 {
        '4'
    } else if d == 5 {
        '5'
    } else if d == 6 {
        '6'
    } else if d == 7 {
        '7'
    } else if d == 8 {
        '8'
    } else {
        '9'
    }
}

/// Whether `c` is one of the ten decimal digits.
pub open spec fn is_digit(c: char) -> bool {
    '0' <= c && c <= '9'
}

/// The value of the decimal digit `c`.
pub open spec fn digit_value(c: char) -> nat {
    (c as u32 - '0' as u32) as nat
}

/// The decimal notation of `n`, without sign and without leading zeros.
pub open spec fn decimal(n: nat) -> Seq<char>
    decreases n,
{
    if n < 10 {
        seq![digit_char(n as int)]
    } else {
        decimal(n / 10).push(digit_char((n % 10) as int))
    }
}

/// The decimal notation of `i`, with a minus sign where it is negative.
pub open spec fn signed_decimal(i: int) -> Seq<char> {
    if i < 0 {
        seq!['-'] + decimal((-i) as nat)
    } else {
        decimal(i as nat)
    }
}

/// The number that a sequence of decimal digits denotes; the empty
/// sequence denotes 0.
pub open spec fn digits_value(digits: Seq<char>) -> nat
    decreases digits.len(),
{
    if digits.len() == 0 {
        0
    } else {
        digits_value(digits.drop_last()) * 10 + digit_value(digits.last())
    }
}

/// The digits of a number's notation: what follows one leading plus sign,
/// if it is followed by anything, or else the whole text.
pub open spec fn digits_of(text: Seq<char>) -> Seq<char> {
    if text.len() > 1 && text[0] == '+' {
        text.drop_first()
    } else {
        text
    }
}

/// The natural number that `text` denotes: an optional plus sign, then at
/// least one digit and nothing but digits.
pub open spec fn parsed_nat(text: Seq<char>) -> Option<nat> {
    let digits = digits_of(text);
    if digits.len() > 0 && forall|i: int| 0 <= i < digits.len() ==> is_digit(digits[i]) {
        Some(digits_value(digits))
    } else {
        None
    }
}

/// The number that `text` denotes, if it is no larger than `max`.
pub open spec fn parsed_up_to(text: Seq<char>, max: nat) -> Option<nat> {
    match parsed_nat(text) {
        Some(n) if n <= max => Some(n),
        _ => None,
    }
}

/// A decimal notation has at least one character.
pub proof fn lemma_decimal_len(n: nat)
    ensures
        decimal(n).len() >= 1,
        n < 10 ==> decimal(n).len() == 1,
        n >= 10 ==> decimal(n).len() == decimal(n / 10).len() + 1,
    decreases n,
{
    if n >= 10 {
        lemma_decimal_len(n / 10);
    }
}

/// What is written is read back: the decimal notation of a number is made
/// of digits and denotes that number.
pub proof fn lemma_decimal_is_read_back(n: nat)
    ensures
        forall|i: int| 0 <= i < decimal(n).len() ==> is_digit(#[trigger] decimal(n)[i]),
        digits_value(decimal(n)) == n,
        parsed_nat(decimal(n)) == Some(n),
    decreases n,
{
    let text = decimal(n);
    let last = digit_char((n % 10) as int);
    assert(is_digit(last) && digit_value(last) == n % 10);
    if n < 10 {
        assert(text.drop_last().len() == 0);
        assert(digits_value(text.drop_last()) == 0);
    } else {
        lemma_decimal_is_read_back(n / 10);
        assert(text.drop_last() =~= decimal(n / 10));
        assert forall|i: int| 0 <= i < text.len() implies is_digit(#[trigger] text[i]) by {
            if i < text.len() - 1 {
                assert(text[i] == decimal(n / 10)[i]);
            }
        }
    }
    assert(text[0] != '+');
    assert(digits_of(text) == text);
}

/// A sequence of digits denotes at least what any beginning of it denotes.
pub proof fn lemma_digits_value_grows(digits: Seq<char>, k: int)
    requires
        0 <= k <= digits.len(),
    ensures
        digits_value(digits.take(k)) <= digits_value(digits),
    decreases digits.len(),
{
    if k == digits.len() {
        assert(digits.take(k) =~= digits);
    } else {
        lemma_digits_value_grows(digits.drop_last(), k);
        assert(digits.drop_last().take(k) =~= digits.take(k));
    }
}

fn digit_str(d: u64) -> (r: &'static str)
    requires
        d < 10,
    ensures
        r@ == seq![digit_char(d as int)],
{
    proof {
        reveal_strlit("0");
        reveal_strlit("1");
        reveal_strlit("2");
        reveal_strlit("3");
        reveal_strlit("4");
        reveal_strlit("5");
        reveal_strlit("6");
        reveal_strlit("7");
        reveal_strlit("8");
        reveal_strlit("9");
    }
    let r = if d == 0 {
        "0"
    } else if d == 1 {
        "1"
    } else if d == 2 {
        "2"
    } else if d == 3 {
        "3"
    } else if d == 4 {
        "4"
    } else if d == 5 {
        "5"
    } else if d == 6 {
        "6"
    } else if d == 7 {
        "7"
    } else if d == 8 {
        "8"
    } else {
        "9"
    };
    assert(r@ =~= seq![digit_char(d as int)]);
    r
}

/// Writes `n` in decimal.
pub fn u64_to_string(n: u64) -> (r: String)
    ensures
        r@ == decimal(n as nat),
    decreases n,
{
    if n < 10 {
        digit_str(n).to_owned()
    } else {
        let mut s = u64_to_string(n / 10);
        s.append(digit_str(n % 10));
        assert(s@ =~= decimal(n as nat));
        s
    }
}

/// Writes `i` in decimal, with a minus sign where it is negative.
pub fn i64_to_string(i: i64) -> (r: String)
    ensures
        r@ == signed_decimal(i as int),
{
    if i < 0 {
        let magnitude: u64 = if i == i64::MIN {
            9223372036854775808u64
        } else {
            (-i) as u64
        };
        proof {
            reveal_strlit("-");
        }
        let mut s = "-".to_owned();
        let digits = u64_to_string(magnitude);
        s.append(digits.as_str());
        assert(s@ =~= signed_decimal(i as int));
        s
    } else {
        u64_to_string(i as u64)
    }
}

/// The number of characters of `n` written in decimal.
pub fn decimal_width(n: u64) -> (r: usize)
    ensures
        r == decimal(n as nat).len(),
        1 <= r <= 20,
{
    let mut width: usize = 1;
    let mut rest: u64 = n;
    assert(rest as nat * pow10((width - 1) as nat) <= n) by {
        assert(pow10(0) == 1);
        assert(rest as nat * 1 == rest as nat);
    }
    while rest >= 10
        invariant
            1 <= width <= 20,
            decimal(n as nat).len() == decimal(rest as nat).len() + width - 1,
            rest as nat * pow10((width - 1) as nat) <= n,
        decreases rest,
    {
        proof {
            lemma_decimal_len(rest as nat);
            lemma_pow10_step((width - 1) as nat);
            assert((rest / 10) as nat * pow10(width as nat) <= rest as nat * pow10((width - 1) as nat))
                by (nonlinear_arith)
                requires
                    pow10(width as nat) == 10 * pow10((width - 1) as nat),
            ;
            if width == 20 {
                lemma_pow10_19();
                assert(false) by (nonlinear_arith)
                    requires
                        rest >= 10,
                        rest as nat * pow10(19) <= n,
                        n <= u64::MAX,
                        pow10(19) == 10000000000000000000,
                ;
            }
        }
        rest = rest / 10;
        width += 1;
    }
    proof {
        lemma_decimal_len(rest as nat);
    }
    width
}

/// Ten to the power `e`.
pub open spec fn pow10(e: nat) -> nat
    decreases e,
{
    if e == 0 {
        1
    } else {
        10 * pow10((e - 1) as nat)
    }
}

proof fn lemma_pow10_step(e: nat)
    ensures
        pow10(e + 1) == 10 * pow10(e),
{
}

proof fn lemma_pow10_19()
    ensures
        pow10(19) == 10000000000000000000,
{
    reveal_with_fuel(pow10, 20);
}

/// Reads a number no larger than `u64::MAX` from its decimal notation.
pub fn parse_u64(text: &str) -> (r: Option<u64>)
    ensures
        match r {
            Some(n) => parsed_up_to(text@, u64::MAX as nat) == Some(n as nat),
            None => parsed_up_to(text@, u64::MAX as nat) is None,
        },
{
    let len = text.unicode_len();
    if len == 0 {
        return None;
    }
    let ghost digits = digits_of(text@);
    let ghost skipped: int = if text@.len() > 1 && text@[0] == '+' { 1 } else { 0 };
    let mut value: u64 = 0;
    let mut at: usize = 0;
    for c in it: text.chars()
        invariant
            it.seq() == text@,
            len == text@.len(),
            at == it.index(),
            digits == digits_of(text@),
            skipped == text@.len() - digits.len(),
            skipped <= at || at == 0,
            at > 0 ==> forall|i: int| 0 <= i < at - skipped ==> is_digit(digits[i]),
            at > 0 ==> value == digits_value(digits.take(at - skipped)),
            at == 0 ==> value == 0,
    {
        if at == 0 && c == '+' && len > 1 {
            assert(skipped == 1);
        } else {
            let ghost k = at - skipped;
            assert(digits[k] == c);
            if !('0' <= c && c <= '9') {
                return None;
            }
            let d: u64 = (c as u32 - '0' as u32) as u64;
            proof {
                assert(digits.take(k + 1).drop_last() =~= digits.take(k));
                assert(digits.take(k + 1).last() == c);
                assert(digit_value(c) == d);
                assert(digits_value(digits.take(k)) == value) by {
                    if at == 0 {
                        assert(digits.take(0).len() == 0);
                    }
                }
                assert(digits_value(digits.take(k + 1)) == value * 10 + d);
                lemma_digits_value_grows(digits, k + 1);
            }
            if value > (u64::MAX - d) / 10 {
                return None;
            }
            value = value * 10 + d;
        }
        at += 1;
    }
    assert(digits.take(digits.len() as int) =~= digits);
    Some(value)
}

/// Reads a number no larger than `u32::MAX` from its decimal notation.
pub fn parse_u32(text: &str) -> (r: Option<u32>)
    ensures
        match r {
            Some(n) => parsed_up_to(text@, u32::MAX as nat) == Some(n as nat),
            None => parsed_up_to(text@, u32::MAX as nat) is None,
        },
{
    match parse_u64(text) {
        Some(n) => if n <= u32::MAX as u64 {
            Some(n as u32)
        } else {
            None
        },
        None => None,
    }
}

} // verus!
