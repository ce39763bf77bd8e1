//! The lexer: source text to tokens.

use vstd::prelude::*;
use crate::atom::chars_of;

verus! {

/// `c` is `(` or `)`.
pub open spec fn is_paren(c: char) -> bool {
    c == '(' || c == ')'
}

/// `c` is white space: a character with the Unicode property `White_Space`.
pub open spec fn is_space(c: char) -> bool {
    ||| '\u{9}' <= c <= '\u{d}'
    ||| c == ' '
    ||| c == '\u{85}'
    ||| c == '\u{a0}'
    ||| c == '\u{1680}'
    ||| '\u{2000}' <= c <= '\u{200a}'
    ||| c == '\u{2028}'
    ||| c == '\u{2029}'
    ||| c == '\u{202f}'
    ||| c == '\u{205f}'
    ||| c == '\u{3000}'
}

/// `c` cannot be part of an atom.
pub open spec fn is_break(c: char) -> bool {
    is_paren(c) || is_space(c)
}

/// The length of the longest prefix of `s` that holds neither parenthesis nor white
/// space.
pub open spec fn atom_len(s: Seq<char>) -> nat
    decreases s.len(),
{
    if s.len() == 0 || is_break(s[0]) {
        0
    } else {
        1 + atom_len(s.drop_first())
    }
}

/// The prefix counted by `atom_len` lies within `s`.
pub proof fn lemma_atom_len_bound(s: Seq<char>)
    ensures
        atom_len(s) <= s.len(),
    decreases s.len(),
{
    if s.len() > 0 && !is_break(s[0]) {
        lemma_atom_len_bound(s.drop_first());
    }
}

/// The tokens of `s`, in order: each parenthesis is a token of its own, each
/// maximal run of other characters that are not white space is an atom, and white
/// space is dropped.
pub open spec fn tokens(s: Seq<char>) -> Seq<Seq<char>>
    decreases s.len(),
{
    if s.len() == 0 {
        Seq::empty()
    } else if is_space(s[0]) {
        tokens(s.drop_first())
    } else if is_paren(s[0]) {
        seq![seq![s[0]]] + tokens(s.drop_first())
    } else {
        let n = atom_len(s);
        proof {
            lemma_atom_len_bound(s);
        }
        seq![s.take(n as int)] + tokens(s.skip(n as int))
    }
}

/// `t` has the form of an atom: one or more characters, none of which is a
/// parenthesis or white space.
pub open spec fn is_atom(t: Seq<char>) -> bool {
    t.len() > 0 && forall|k: int| 0 <= k < t.len() ==> !is_break(#[trigger] t[k])
}

/// `t` has the form of a token: one parenthesis, or an atom.
pub open spec fn is_token(t: Seq<char>) -> bool {
    (t.len() == 1 && is_paren(t[0])) || is_atom(t)
}

/// The prefix counted by `atom_len` holds neither parenthesis nor white space, and
/// what follows it, if anything, is one of them: the prefix is maximal.
pub proof fn lemma_atom_len_run(s: Seq<char>)
    ensures
        forall|k: int| 0 <= k < atom_len(s) ==> !is_break(#[trigger] s[k]),
        atom_len(s) < s.len() ==> is_break(s[atom_len(s) as int]),
    decreases s.len(),
{
    lemma_atom_len_bound(s);
    if s.len() > 0 && !is_break(s[0]) {
        let t = s.drop_first();
        lemma_atom_len_run(t);
        lemma_atom_len_bound(t);
        assert forall|k: int| 0 <= k < atom_len(s) implies !is_break(#[trigger] s[k]) by {
            if k > 0 {
                assert(s[k] == t[k - 1]);
            }
        }
    }
}

/// Every token has the form of a token.
pub proof fn lemma_tokens_have_token_form(s: Seq<char>)
    ensures
        forall|i: int| 0 <= i < tokens(s).len() ==> is_token(#[trigger] tokens(s)[i]),
    decreases s.len(),
{
    if s.len() > 0 {
        if is_space(s[0]) {
            lemma_tokens_have_token_form(s.drop_first());
            assert(tokens(s) == tokens(s.drop_first()));
        } else if is_paren(s[0]) {
            lemma_tokens_have_token_form(s.drop_first());
            assert(tokens(s) == seq![seq![s[0]]] + tokens(s.drop_first()));
        } else {
            let n = atom_len(s);
            lemma_atom_len_bound(s);
            lemma_atom_len_run(s);
            lemma_tokens_have_token_form(s.skip(n as int));
            assert(tokens(s) == seq![s.take(n as int)] + tokens(s.skip(n as int)));
            assert(is_atom(s.take(n as int)));
        }
    }
}

/// The characters of all `parts`, one part after the other.
pub open spec fn concat_all(parts: Seq<Seq<char>>) -> Seq<char>
    decreases parts.len(),
{
    if parts.len() == 0 {
        Seq::empty()
    } else {
        parts[0] + concat_all(parts.drop_first())
    }
}

/// `s` without its white space.
pub open spec fn without_space(s: Seq<char>) -> Seq<char>
    decreases s.len(),
{
    if s.len() == 0 {
        Seq::empty()
    } else if is_space(s[0]) {
        without_space(s.drop_first())
    } else {
        seq![s[0]] + without_space(s.drop_first())
    }
}

/// A run without white space stays as it is when white space is taken out of what
/// it starts.
pub proof fn lemma_without_space_after_run(s: Seq<char>, m: nat)
    requires
        m <= s.len(),
        forall|k: int| 0 <= k < m ==> !is_space(#[trigger] s[k]),
    ensures
        without_space(s) == s.take(m as int) + without_space(s.skip(m as int)),
    decreases m,
{
    if m == 0 {
        assert(s.skip(0) =~= s);
    } else {
        let t = s.drop_first();
        lemma_without_space_after_run(t, (m - 1) as nat);
        assert(t.skip(m - 1) =~= s.skip(m as int));
    }
}

/// The tokens, joined, are the text without its white space: the lexer drops white
/// space and nothing else, and adds nothing.
pub proof fn lemma_tokens_keep_the_text(s: Seq<char>)
    ensures
        concat_all(tokens(s)) == without_space(s),
    decreases s.len(),
{
    if s.len() > 0 {
        if is_space(s[0]) {
            lemma_tokens_keep_the_text(s.drop_first());
        } else if is_paren(s[0]) {
            lemma_tokens_keep_the_text(s.drop_first());
            assert(tokens(s).drop_first() =~= tokens(s.drop_first()));
        } else {
            let n = atom_len(s);
            lemma_atom_len_bound(s);
            lemma_atom_len_run(s);
            lemma_tokens_keep_the_text(s.skip(n as int));
            assert(tokens(s).drop_first() =~= tokens(s.skip(n as int)));
            lemma_without_space_after_run(s, n);
        }
    }
}

/// The text that holds `parts` one after the other, each followed by a space.
pub open spec fn spaced(parts: Seq<Seq<char>>) -> Seq<char>
    decreases parts.len(),
{
    if parts.len() == 0 {
        Seq::empty()
    } else {
        parts[0] + seq![' '] + spaced(parts.drop_first())
    }
}

/// A run of `m` characters that are neither parenthesis nor white space, followed by
/// one that is or by the end, is the atom at the start of `s`.
pub proof fn lemma_atom_len_is(s: Seq<char>, m: nat)
    requires
        m <= s.len(),
        forall|k: int| 0 <= k < m ==> !is_break(#[trigger] s[k]),
        m == s.len() || is_break(s[m as int]),
    ensures
        atom_len(s) == m,
    decreases m,
{
    if m > 0 {
        let t = s.drop_first();
        lemma_atom_len_is(t, (m - 1) as nat);
    }
}

/// Atoms are maximal runs: a run of characters that are neither parenthesis nor white
/// space, up to the end of the text or to the first character that is one, is one
/// token, whole.
pub proof fn lemma_atom_is_one_token(atom: Seq<char>, rest: Seq<char>)
    requires
        is_atom(atom),
        rest.len() == 0 || is_break(rest[0]),
    ensures
        tokens(atom + rest) == seq![atom] + tokens(rest),
{
    let s = atom + rest;
    let m = atom.len();
    assert forall|k: int| 0 <= k < m implies !is_break(#[trigger] s[k]) by {
        assert(s[k] == atom[k]);
    }
    lemma_atom_len_is(s, m);
    assert(s.take(m as int) =~= atom);
    assert(s.skip(m as int) =~= rest);
}

/// Tokens that are written out with spaces between them are read back as they
/// were: the lexer inverts writing.
pub proof fn lemma_tokens_of_spaced(parts: Seq<Seq<char>>)
    requires
        forall|i: int| 0 <= i < parts.len() ==> is_token(#[trigger] parts[i]),
    ensures
        tokens(spaced(parts)) == parts,
    decreases parts.len(),
{
    if parts.len() > 0 {
        let first = parts[0];
        let rest = parts.drop_first();
        let s = spaced(parts);
        let tail = seq![' '] + spaced(rest);
        lemma_tokens_of_spaced(rest);
        assert(tail.drop_first() =~= spaced(rest));
        assert(tokens(tail) == rest);
        let m = first.len();
        assert(s.take(m as int) =~= first);
        assert(s.skip(m as int) =~= tail);
        if is_atom(first) {
            lemma_atom_len_is(s, m);
        } else {
            assert(first =~= seq![s[0]]);
        }
    }
}

/// The character sequences of a sequence of string slices.
pub open spec fn strs_view(strs: Seq<&str>) -> Seq<Seq<char>> {
    strs.map_values(|t: &str| t@)
}

/// Whether `c` is white space.
pub fn is_whitespace(c: char) -> (b: bool)
    ensures
        b == is_space(c),
{
    ('\u{9}' <= c && c <= '\u{d}') || c == ' ' || c == '\u{85}' || c == '\u{a0}' || c == '\u{1680}'
        || ('\u{2000}' <= c && c <= '\u{200a}') || c == '\u{2028}' || c == '\u{2029}' || c
        == '\u{202f}' || c == '\u{205f}' || c == '\u{3000}'
}

/// Splits source text into tokens, each a slice of `text`: a parenthesis or an atom.
pub fn tokenize_scheme(text: &str) -> (parsed: Vec<&str>)
    ensures
        strs_view(parsed@) == tokens(text@),
        forall|i: int| 0 <= i < parsed.len() ==> is_token(#[trigger] parsed[i]@),
{
    let chars = chars_of(text);
    let n = chars.len();
    let mut parsed: Vec<&str> = Vec::new();
    let mut i: usize = 0;
    assert(text@.skip(0) =~= text@);
    while i < n
        invariant
            i <= n,
            n == chars.len(),
            chars@ == text@,
            tokens(text@) == strs_view(parsed@) + tokens(text@.skip(i as int)),
        decreases n - i,
    {
        let c = chars[i];
        let ghost rest = text@.skip(i as int);
        if is_whitespace(c) {
            assert(rest.drop_first() =~= text@.skip(i + 1));
            i += 1;
        } else if c == '(' || c == ')' {
            let token = text.substring_char(i, i + 1);
            parsed.push(token);
            proof {
                assert(rest.drop_first() =~= text@.skip(i + 1));
                assert(token@ =~= seq![c]);
            }
            i += 1;
        } else {
            let start = i;
            let mut j: usize = i + 1;
            while j < n && !(chars[j] == '(' || chars[j] == ')' || is_whitespace(chars[j]))
                invariant
                    start < j <= n,
                    n == chars.len(),
                    forall|k: int| start <= k < j ==> !is_break(#[trigger] chars[k]),
                decreases n - j,
            {
                j += 1;
            }
            let token = text.substring_char(start, j);
            parsed.push(token);
            proof {
                let m = (j - start) as nat;
                lemma_atom_len_is(rest, m);
                assert(rest.take(m as int) =~= token@);
                assert(rest.skip(m as int) =~= text@.skip(j as int));
            }
            i = j;
        }
    }
    proof {
        lemma_tokens_have_token_form(text@);
        assert forall|i: int| 0 <= i < parsed.len() implies is_token(#[trigger] parsed[i]@) by {
            assert(parsed[i]@ == strs_view(parsed@)[i]);
        }
    }
    parsed
}

} // verus!
