//! Values as printed lines.

use vstd::prelude::*;
use crate::atom::{all_digits, atom_value, digits_value, is_digit};
use crate::syntax::{Val, ValModel};

verus! {

/// The character of the decimal digit `d`.
pub open spec fn digit_char(d: nat) -> char {
    ('0' as nat + d) as char
}

/// `n` in decimal, without leading zeros.
pub open spec fn decimal(n: nat) -> Seq<char>
    decreases n,
{
    if n < 10 {
        seq![digit_char(n)]
    } else {
        decimal(n / 10).push(digit_char(n % 10))
    }
}

/// A number as it is printed: `-` where it is negative, the numerator, and `/` with
/// the denominator where that is not 1.
pub open spec fn number_text(neg: bool, n: nat, d: nat) -> Seq<char> {
    let sign = if neg { seq!['-'] } else { Seq::empty() };
    let denominator = if d != 1 { seq!['/'] + decimal(d) } else { Seq::empty() };
    sign + decimal(n) + denominator
}

/// The line that a value is printed as. A function and a deferred expression have
/// none.
pub open spec fn shown(v: ValModel) -> Option<Seq<char>> {
    match v {
        ValModel::Number(neg, n, d) => Some(number_text(neg, n as nat, d as nat)),
        ValModel::Boolean(b) => Some(if b { "true"@ } else { "false"@ }),
        ValModel::SchemeError => Some("Error"@),
        ValModel::Function(_, _) => None,
        ValModel::Unbound(_) => None,
    }
}

/// The decimal digits of `n` denote `n`.
pub proof fn lemma_decimal_reads_back(n: nat)
    ensures
        all_digits(decimal(n)),
        digits_value(decimal(n)) == n,
    decreases n,
{
    let s = decimal(n);
    if n < 10 {
        reveal_with_fuel(digits_value, 2);
    } else {
        let front = decimal(n / 10);
        lemma_decimal_reads_back(n / 10);
        assert(s.drop_last() =~= front);
    }
}

/// A whole number is printed as a numeral that denotes it: what the renderer writes
/// of a whole number within the range of numerals, the evaluator reads as that
/// number. Only a negative zero does not come back: it is read as zero.
pub proof fn lemma_printed_whole_number_reads_back(neg: bool, n: nat)
    requires
        n <= 0x7fff_ffff || (neg && n == 0x8000_0000),
        neg ==> n != 0,
    ensures
        atom_value(number_text(neg, n, 1)) == ValModel::Number(neg, n as u32, 1),
{
    lemma_decimal_reads_back(n);
    let s = number_text(neg, n, 1);
    let digits = decimal(n);
    if neg {
        assert(s.subrange(1, s.len() as int) =~= digits);
    }
}

/// The model of an optional line.
pub open spec fn line_model(line: Option<String>) -> Option<Seq<char>> {
    match line {
        Some(s) => Some(s@),
        None => None,
    }
}

/// The decimal digit `d` as a string.
fn digit_str(d: u32) -> (s: &'static str)
    requires
        d < 10,
    ensures
        s@ == seq![digit_char(d as nat)],
{
    proof {
        reveal_strlit("0");
        reveal_strlit("1");
        reveal_strlit("2");
        reveal_strlit("3");
        reveal_strlit("4");
        reveal_strlit("5");
        reveal_strlit("6");
        reveal_strlit("7");
        reveal_strlit("8");
        reveal_strlit("9");
    }
    if d == 0 {
        "0"
    } else if d == 1 {
        "1"
    } else if d == 2 {
        "2"
    } else if d == 3 {
        "3"
    } else if d == 4 {
        "4"
    } else if d == 5 {
        "5"
    } else if d == 6 {
        "6"
    } else if d == 7 {
        "7"
    } else if d == 8 {
        "8"
    } else {
        "9"
    }
}

/// Appends `n` in decimal to `out`.
fn push_decimal(out: &mut String, n: u32)
    ensures
        final(out)@ == old(out)@ + decimal(n as nat),
    decreases n,
{
    if n >= 10 {
        push_decimal(out, n / 10);
    }
    out.append(digit_str(n % 10));
}

/// The line that `v` is printed as, if it has one.
pub fn render(v: &Val) -> (line: Option<String>)
    ensures
        line_model(line) == shown(v@),
{
    match v {
        Val::Number(neg, n, d) => {
            let mut out = String::new();
            proof {
                reveal_strlit("-");
                reveal_strlit("/");
            }
            if *neg {
                out.append("-");
            }
            push_decimal(&mut out, *n);
            if *d != 1 {
                out.append("/");
                push_decimal(&mut out, *d);
            }
            Some(out)
        },
        Val::Boolean(b) => Some(
            if *b {
                String::from_str("true")
            } else {
                String::from_str("false")
            },
        ),
        Val::SchemeError() => Some(String::from_str("Error")),
        Val::Function(_, _) => None,
        Val::Unbound(_) => None,
    }
}

} // verus!
