//! Whole numbers written out in base ten.
use vstd::arithmetic::div_mod::lemma_div_denominator;
use vstd::arithmetic::power::{lemma_pow_positive, pow};
use vstd::prelude::*;

verus! {

/// The character that stands for a digit.
pub open spec fn digit(d: int) -> char {
    ('0' as int + d) as char
}

/// A natural number in base ten, without leading zeros.
pub open spec fn decimal(n: nat) -> Seq<char>
    decreases n,
{
    if n < 10 {
        seq![digit(n as int)]
    } else {
        decimal(n / 10) + seq![digit((n % 10) as int)]
    }
}

/// A whole number in base ten, with a minus sign in front where it is negative.
pub open spec fn signed_decimal(n: int) -> Seq<char> {
    if n < 0 {
        seq!['-'] + decimal((-n) as nat)
    } else {
        decimal(n as nat)
    }
}

fn digit_str(d: u64) -> (s: &'static str)
    requires
        d < 10,
    ensures
        s@ == seq![digit(d as int)],
{
    proof {
        reveal_strlit("0");
        reveal_strlit("1");
        reveal_strlit("2");
        reveal_strlit("3");
        reveal_strlit("4");
        reveal_strlit("5");
        reveal_strlit("6");
        reveal_strlit("7");
        reveal_strlit("8");
        reveal_strlit("9");
    }
    match d {
        0 => "0",
        1 => "1",
        2 => "2",
        3 => "3",
        4 => "4",
        5 => "5",
        6 => "6",
        7 => "7",
        8 => "8",
        _ => "9",
    }
}

/// Appends a natural number to a text.
pub fn push_decimal(text: &mut String, n: u64)
    ensures
        final(text)@ == old(text)@ + decimal(n as nat),
    decreases n,
{
    if n >= 10 {
        push_decimal(text, n / 10);
    }
    text.append(digit_str(n % 10));
}

/// Appends a whole number to a text.
pub fn push_signed_decimal(text: &mut String, n: i32)
    ensures
        final(text)@ == old(text)@ + signed_decimal(n as int),
{
    if n < 0 {
        proof {
            reveal_strlit("-");
        }
        text.append("-");
        push_decimal(text, (-(n as i64)) as u64);
    } else {
        push_decimal(text, n as u64);
    }
}

/// Every character of a natural number in base ten is a digit.
pub proof fn lemma_decimal_chars(n: nat)
    ensures
        decimal(n).len() > 0,
        forall|i: int| 0 <= i < decimal(n).len() ==> '0' <= #[trigger] decimal(n)[i] <= '9',
    decreases n,
{
    if n >= 10 {
        lemma_decimal_chars(n / 10);
    }
}

/// The number that a text of digits stands for.
pub open spec fn value(text: Seq<char>) -> int
    decreases text.len(),
{
    if text.len() == 0 {
        0
    } else {
        10 * value(text.drop_last()) + (text.last() as int - '0' as int)
    }
}

/// The number that a text of digits, with or without a minus sign, stands for.
pub open spec fn signed_value(text: Seq<char>) -> int {
    if text.len() > 0 && text[0] == '-' {
        -value(text.skip(1))
    } else {
        value(text)
    }
}

/// A natural number written out in base ten stands for that number.
pub proof fn law_decimal_can_be_read_back(n: nat)
    ensures
        value(decimal(n)) == n,
    decreases n,
{
    if n >= 10 {
        law_decimal_can_be_read_back(n / 10);
        assert(decimal(n).drop_last() =~= decimal(n / 10));
    } else {
        assert(value(decimal(n).drop_last()) == 0);
    }
}

/// A whole number written out in base ten stands for that number.
pub proof fn law_signed_decimal_can_be_read_back(n: int)
    ensures
        signed_value(signed_decimal(n)) == n,
{
    if n < 0 {
        law_decimal_can_be_read_back((-n) as nat);
        assert(signed_decimal(n).skip(1) =~= decimal((-n) as nat));
    } else {
        law_decimal_can_be_read_back(n as nat);
        lemma_decimal_chars(n as nat);
    }
}

/// The digits of a natural number: the last counts ones, the one before it tens, and so on, each
/// written as its character; and there are no more of them than it takes.
pub proof fn law_digits_by_place(n: nat)
    ensures
        decimal(n).len() > 0,
        n < pow(10, decimal(n).len()),
        decimal(n).len() > 1 ==> n >= pow(10, (decimal(n).len() - 1) as nat),
        forall|i: int|
            0 <= i < decimal(n).len() ==> #[trigger] decimal(n)[i] as int == 48 + (n as int / pow(
                10,
                (decimal(n).len() - 1 - i) as nat,
            )) % 10,
    decreases n,
{
    reveal(pow);
    let text = decimal(n);
    if n < 10 {
        assert(pow(10, 0) == 1);
        assert(pow(10, 1) == 10 * pow(10, 0));
        assert(n as int / 1 == n);
        assert(text.len() == 1);
        assert(text[0] as int == 48 + (n as int / pow(10, 0)) % 10);
    } else {
        let front = decimal(n / 10);
        law_digits_by_place(n / 10);
        assert(text.len() == front.len() + 1);
        assert(pow(10, text.len()) == 10 * pow(10, front.len()));
        assert(pow(10, front.len()) == 10 * pow(10, (front.len() - 1) as nat));
        assert forall|i: int| 0 <= i < text.len() implies #[trigger] text[i] as int == 48 + (n as int
            / pow(10, (text.len() - 1 - i) as nat)) % 10 by {
            let e = (text.len() - 1 - i) as nat;
            if e > 0 {
                let p = pow(10, (e - 1) as nat);
                assert(text[i] == front[i]);
                lemma_pow_positive(10, (e - 1) as nat);
                lemma_div_denominator(n as int, 10, p);
                assert(pow(10, e) == 10 * p);
                assert((front.len() - 1 - i) as nat == (e - 1) as nat);
            } else {
                assert(pow(10, 0) == 1);
                assert(n as int / 1 == n);
            }
        }
    }
}

/// What a text of digits stands for: nothing for none of them, and each further digit is worth as
/// much as it says on top of ten times what went before. A minus sign in front turns it round.
pub proof fn law_worth_of_digits(text: Seq<char>, c: char)
    ensures
        value(Seq::empty()) == 0,
        value(text.push(c)) == 10 * value(text) + (c as int - 48),
        signed_value(seq!['-'] + text) == -value(text),
        (text.len() == 0 || text[0] != '-') ==> signed_value(text) == value(text),
{
    assert(text.push(c).drop_last() =~= text);
    assert((seq!['-'] + text).skip(1) =~= text);
}

/// A number is written with a minus sign exactly where it is negative, and else as its size.
pub proof fn law_sign_of_a_number(n: int)
    ensures
        n >= 0 ==> signed_decimal(n) == decimal(n as nat),
        n < 0 ==> signed_decimal(n).len() > 0 && signed_decimal(n)[0] == '-' && signed_decimal(
            n,
        ).skip(1) == decimal((-n) as nat),
{
    if n < 0 {
        assert(signed_decimal(n).skip(1) =~= decimal((-n) as nat));
    }
}

} // verus!
