//! Natural numbers written in base ten.

use vstd::prelude::*;
use vstd::string::StringExecFns;

verus! {

/// The character that writes one digit.
pub open spec fn digit_char(digit: nat) -> char {
    if digit == 0 {
        '0'
    } else if digit == 1 {
        '1'
    } else if digit == 2 {
        '2'
    } else if digit == 3 {
        '3'
    } else if digit == 4 {
        '4'
    } else if digit == 5 {
        '5'
    } else if digit == 6 {
        '6'
    } else if digit == 7 {
        '7'
    } else if digit == 8 {
        '8'
    } else {
        '9'
    }
}

/// The digit that a character writes; anything but a digit counts as zero.
pub open spec fn digit_value(c: char) -> nat {
    if c == '1' {
        1
    } else if c == '2' {
        2
    } else if c == '3' {
        3
    } else if c == '4' {
        4
    } else if c == '5' {
        5
    } else if c == '6' {
        6
    } else if c == '7' {
        7
    } else if c == '8' {
        8
    } else if c == '9' {
        9
    } else {
        0
    }
}

/// Whether a character is one of the ten digits.
pub open spec fn is_digit(c: char) -> bool {
    c == '0' || digit_value(c) != 0
}

/// `n` in base ten, without leading zeros.
pub open spec fn decimal(n: nat) -> Seq<char>
    decreases n,
{
    if n < 10 {
        seq![digit_char(n)]
    } else {
        decimal(n / 10).push(digit_char(n % 10))
    }
}

/// The number that a text of digits writes in base ten.
pub open spec fn decimal_value(text: Seq<char>) -> nat
    decreases text.len(),
{
    if text.len() == 0 {
        0
    } else {
        decimal_value(text.drop_last()) * 10 + digit_value(text.last())
    }
}

/// What `decimal` writes consists of digits only and reads back as the
/// number that was written.
pub proof fn lemma_decimal_reads_back(n: nat)
    ensures
        decimal(n).len() >= 1,
        forall|i: int| 0 <= i < decimal(n).len() ==> is_digit(#[trigger] decimal(n)[i]),
        decimal_value(decimal(n)) == n,
    decreases n,
{
    if n < 10 {
        let text = decimal(n);
        assert(text.drop_last() =~= Seq::<char>::empty());
        assert(decimal_value(text.drop_last()) == 0);
    } else {
        lemma_decimal_reads_back(n / 10);
        let text = decimal(n);
        assert(text.drop_last() =~= decimal(n / 10));
        assert(text.last() == digit_char(n % 10));
    }
}

/// The one-character text of a digit.
fn digit_text(digit: u8) -> (text: &'static str)
    requires
        digit < 10,
    ensures
        text@ == seq![digit_char(digit as nat)],
{
    proof {
        reveal_strlit("0");
        reveal_strlit("1");
        reveal_strlit("2");
        reveal_strlit("3");
        reveal_strlit("4");
        reveal_strlit("5");
        reveal_strlit("6");
        reveal_strlit("7");
        reveal_strlit("8");
        reveal_strlit("9");
    }
    let text = match digit {
        0 => "0",
        1 => "1",
        2 => "2",
        3 => "3",
        4 => "4",
        5 => "5",
        6 => "6",
        7 => "7",
        8 => "8",
        _ => "9",
    };
    assert(text@ =~= seq![digit_char(digit as nat)]);
    text
}

/// Writes `n` in base ten.
pub fn render_decimal(n: u128) -> (text: String)
    ensures
        text@ == decimal(n as nat),
    decreases n,
{
    let last = digit_text((n % 10) as u8);
    if n < 10 {
        String::from_str(last)
    } else {
        let mut text = render_decimal(n / 10);
        text.append(last);
        assert(text@ =~= decimal(n as nat));
        text
    }
}

} // verus!
