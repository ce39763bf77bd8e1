//! Atoms: telling numerals from names.

use vstd::prelude::*;
use crate::syntax::{Expr, ExprModel, Val, ValModel};

verus! {

/// `c` is one of the decimal digits `0` to `9`.
pub open spec fn is_digit(c: char) -> bool {
    '0' <= c <= '9'
}

/// The number that a string of decimal digits denotes.
pub open spec fn digits_value(s: Seq<char>) -> nat
    decreases s.len(),
{
    if s.len() == 0 {
        0
    } else {
        digits_value(s.drop_last()) * 10 + (s.last() as u32 - '0' as u32) as nat
    }
}

/// `s` is one or more decimal digits.
pub open spec fn all_digits(s: Seq<char>) -> bool {
    s.len() > 0 && forall|i: int| 0 <= i < s.len() ==> is_digit(#[trigger] s[i])
}

/// The integer that an atom denotes: an optional leading `-` and then decimal digits,
/// with a value that a signed 32-bit integer holds. Any other atom denotes none.
pub open spec fn numeral(s: Seq<char>) -> Option<int> {
    if s.len() > 0 && s[0] == '-' {
        let digits = s.subrange(1, s.len() as int);
        if all_digits(digits) && digits_value(digits) <= 0x8000_0000 {
            Some(-(digits_value(digits) as int))
        } else {
            None
        }
    } else if all_digits(s) && digits_value(s) <= 0x7fff_ffff {
        Some(digits_value(s) as int)
    } else {
        None
    }
}

/// The value of an atom: a whole number for a numeral, and for any other atom a
/// deferred reference to the atom itself.
pub open spec fn atom_value(s: Seq<char>) -> ValModel {
    match numeral(s) {
        Some(n) => if n < 0 {
            ValModel::Number(true, (-n) as u32, 1)
        } else {
            ValModel::Number(false, n as u32, 1)
        },
        None => ValModel::Unbound(ExprModel::Text(s)),
    }
}

/// The characters of a string slice, in order.
pub fn chars_of(text: &str) -> (v: Vec<char>)
    ensures
        v@ == text@,
{
    let mut v: Vec<char> = Vec::new();
    for c in it: text.chars()
        invariant
            it.seq() == text@,
            v@ == text@.take(it.index() as int),
    {
        v.push(c);
    }
    v
}

/// Whether two string slices hold the same characters.
pub fn str_equal(a: &str, b: &str) -> (same: bool)
    ensures
        same == (a@ == b@),
{
    let n = a.unicode_len();
    if n != b.unicode_len() {
        return false;
    }
    let mut i: usize = 0;
    while i < n
        invariant
            i <= n,
            n == a@.len(),
            n == b@.len(),
            forall|j: int| 0 <= j < i ==> a@[j] == b@[j],
        decreases n - i,
    {
        if a.get_char(i) != b.get_char(i) {
            return false;
        }
        i += 1;
    }
    assert(a@ =~= b@);
    true
}

/// The value of the atom `txt`.
pub fn atom_val(txt: &String) -> (v: Val)
    ensures
        v@ == atom_value(txt@),
        v.wf(),
{
    let chars = chars_of(txt.as_str());
    let n = chars.len();
    let neg = n > 0 && chars[0] == '-';
    let start: usize = if neg { 1 } else { 0 };
    let ghost digits = chars@.subrange(start as int, n as int);
    let mut acc: u64 = 0;
    let mut i: usize = start;
    let mut valid = start < n;
    while valid && i < n
        invariant
            start <= i <= n,
            n == chars.len(),
            start < n || !valid,
            digits == chars@.subrange(start as int, n as int),
            valid ==> forall|j: int| 0 <= j < i - start ==> is_digit(#[trigger] digits[j]),
            !valid ==> !all_digits(digits),
            valid && digits_value(digits.take(i - start)) <= 0x8000_0000 ==> acc == digits_value(
                digits.take(i - start),
            ),
            valid && digits_value(digits.take(i - start)) > 0x8000_0000 ==> acc > 0x8000_0000,
            acc <= 0x5_0000_0009,
        decreases n - i, valid as int,
    {
        let c = chars[i];
        if c < '0' || c > '9' {
            assert(!is_digit(digits[i - start]));
            valid = false;
        } else {
            proof {
                let next = digits.take(i - start + 1);
                assert(next.drop_last() =~= digits.take(i - start));
            }
            if acc <= 0x8000_0000 {
                acc = acc * 10 + (c as u32 - '0' as u32) as u64;
            }
            i += 1;
        }
    }
    proof {
        if valid {
            assert(digits.take(n - start) =~= digits);
        }
        if !neg {
            assert(digits =~= txt@);
        }
    }
    if !valid {
        Val::Unbound(Expr::Text(txt.clone()))
    } else if neg && acc <= 0x8000_0000 {
        Val::Number(acc != 0, acc as u32, 1)
    } else if !neg && acc <= 0x7fff_ffff {
        Val::Number(false, acc as u32, 1)
    } else {
        Val::Unbound(Expr::Text(txt.clone()))
    }
}

} // verus!
