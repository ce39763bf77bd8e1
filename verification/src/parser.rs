//! The tree builder: tokens to expression trees.

use vstd::prelude::*;
use crate::atom::str_equal;
use crate::lexer::{
    is_atom,
    is_paren,
    is_token,
    lemma_tokens_of_spaced,
    spaced,
    strs_view,
    tokens,
};
use crate::syntax::{Expr, ExprModel, ParseTree};

verus! {

/// The list that starts at token `pos`, and the position after it. A `(` opens a
/// nested list, which runs to its matching `)`; a `)` ends the list and is passed
/// over; any other token is an atom. The end of the tokens ends every open list.
pub open spec fn parse_list(tokens: Seq<Seq<char>>, pos: nat) -> (Seq<ExprModel>, nat)
    decreases tokens.len() - pos,
{
    if pos >= tokens.len() {
        (Seq::empty(), pos)
    } else if tokens[pos as int] == ")"@ {
        (Seq::empty(), pos + 1)
    } else if tokens[pos as int] == "("@ {
        let (child, after) = parse_list(tokens, pos + 1);
        if pos < after <= tokens.len() {
            let (rest, end) = parse_list(tokens, after);
            (seq![ExprModel::Tree(child)] + rest, end)
        } else {
            (Seq::empty(), pos)
        }
    } else {
        let (rest, end) = parse_list(tokens, pos + 1);
        (seq![ExprModel::Text(tokens[pos as int])] + rest, end)
    }
}

/// A list ends at or after the position where it starts, and within the tokens
/// where it starts within them. So the nested list of a `(` always ends after it.
pub proof fn lemma_parse_list_advances(tokens: Seq<Seq<char>>, pos: nat)
    ensures
        parse_list(tokens, pos).1 >= pos,
        pos <= tokens.len() ==> parse_list(tokens, pos).1 <= tokens.len(),
    decreases tokens.len() - pos,
{
    if pos < tokens.len() && tokens[pos as int] != ")"@ {
        lemma_parse_list_advances(tokens, pos + 1);
        if tokens[pos as int] == "("@ {
            lemma_parse_list_advances(tokens, parse_list(tokens, pos + 1).1);
        }
    }
}

/// A freshly built tree holds atoms and lists only.
pub open spec fn is_parsed(e: ExprModel) -> bool
    decreases e,
{
    match e {
        ExprModel::Text(_) => true,
        ExprModel::Bound(_) => false,
        ExprModel::Tree(list) => forall|i: int| 0 <= i < list.len() ==> is_parsed(#[trigger] list[i]),
    }
}

/// Every expression of `list` holds atoms and lists only.
pub open spec fn all_parsed(list: Seq<ExprModel>) -> bool {
    forall|i: int| 0 <= i < list.len() ==> is_parsed(#[trigger] list[i])
}

/// What the tree builder yields holds no bound slot.
pub proof fn lemma_parse_list_is_parsed(tokens: Seq<Seq<char>>, pos: nat)
    ensures
        all_parsed(parse_list(tokens, pos).0),
    decreases tokens.len() - pos,
{
    if pos < tokens.len() && tokens[pos as int] != ")"@ {
        lemma_parse_list_is_parsed(tokens, pos + 1);
        if tokens[pos as int] == "("@ {
            lemma_parse_list_advances(tokens, pos + 1);
            lemma_parse_list_is_parsed(tokens, parse_list(tokens, pos + 1).1);
        }
    }
}

/// An expression without bound slots is well formed.
pub proof fn lemma_parsed_is_wf(e: ExprModel)
    requires
        is_parsed(e),
    ensures
        e.wf(),
    decreases e,
{
    match e {
        ExprModel::Tree(list) => {
            assert forall|i: int| 0 <= i < list.len() implies (#[trigger] list[i]).wf() by {
                lemma_parsed_is_wf(list[i]);
            }
        },
        _ => {},
    }
}

/// The tokens that `e` is written as: an atom as itself, a list as its elements
/// between parentheses. A bound slot cannot be written.
pub open spec fn written(e: ExprModel) -> Seq<Seq<char>>
    decreases e,
{
    match e {
        ExprModel::Text(s) => seq![s],
        ExprModel::Tree(list) => seq!["("@] + written_all(list) + seq![")"@],
        ExprModel::Bound(_) => Seq::empty(),
    }
}

/// The tokens that the expressions of `list` are written as, one after the other.
pub open spec fn written_all(list: Seq<ExprModel>) -> Seq<Seq<char>>
    decreases list,
{
    if list.len() == 0 {
        Seq::empty()
    } else {
        written(list[0]) + written_all(list.drop_first())
    }
}

/// `e` holds atoms and lists only, and no atom is a parenthesis.
pub open spec fn is_writable(e: ExprModel) -> bool
    decreases e,
{
    match e {
        ExprModel::Text(s) => s != "("@ && s != ")"@,
        ExprModel::Bound(_) => false,
        ExprModel::Tree(list) => all_writable(list),
    }
}

/// Every expression of `list` is writable.
pub open spec fn all_writable(list: Seq<ExprModel>) -> bool
    decreases list,
{
    forall|i: int| 0 <= i < list.len() ==> is_writable(#[trigger] list[i])
}

/// Where the tokens end or a `)` stands, the list ends.
proof fn lemma_read_end(tokens: Seq<Seq<char>>, pos: nat)
    requires
        pos >= tokens.len() || tokens[pos as int] == ")"@,
    ensures
        parse_list(tokens, pos) == (
            Seq::<ExprModel>::empty(),
            if pos >= tokens.len() { pos } else { pos + 1 },
        ),
{
}

/// An atom is read as the first element of the list.
proof fn lemma_read_atom(tokens: Seq<Seq<char>>, pos: nat)
    requires
        pos < tokens.len(),
        tokens[pos as int] != "("@,
        tokens[pos as int] != ")"@,
    ensures
        parse_list(tokens, pos) == (
            seq![ExprModel::Text(tokens[pos as int])] + parse_list(tokens, pos + 1).0,
            parse_list(tokens, pos + 1).1,
        ),
{
}

/// A `(` is read with the list that follows it as the first element of the list.
proof fn lemma_read_nested(tokens: Seq<Seq<char>>, pos: nat)
    requires
        pos < tokens.len(),
        tokens[pos as int] == "("@,
    ensures
        parse_list(tokens, pos) == (
            seq![ExprModel::Tree(parse_list(tokens, pos + 1).0)] + parse_list(
                tokens,
                parse_list(tokens, pos + 1).1,
            ).0,
            parse_list(tokens, parse_list(tokens, pos + 1).1).1,
        ),
{
    reveal_strlit("(");
    reveal_strlit(")");
    assert("("@[0] != ")"@[0]);
    lemma_parse_list_advances(tokens, pos + 1);
}

/// A written list starts with what its first element is written as.
proof fn lemma_written_all_unfolds(list: Seq<ExprModel>)
    requires
        list.len() > 0,
    ensures
        written_all(list) == written(list[0]) + written_all(list.drop_first()),
{
}

/// Sequences joined in either grouping are the same.
proof fn lemma_join_regroups<A>(a: Seq<A>, b: Seq<A>, c: Seq<A>, d: Seq<A>)
    ensures
        a + (b + c) + d == (a + b) + c + d,
        a + b + c + d == a + b + (c + d),
        (a + b).len() == a.len() + b.len(),
{
}

/// Reading inverts writing, wherever the written list stands: after the tokens
/// `before`, and up to the `)` that `after` starts with or the end of the tokens, the
/// tree builder reads `list` back and stops behind it.
pub proof fn lemma_parse_list_reads_back(
    before: Seq<Seq<char>>,
    list: Seq<ExprModel>,
    after: Seq<Seq<char>>,
)
    requires
        all_writable(list),
        after.len() == 0 || after[0] == ")"@,
    ensures
        parse_list(before + written_all(list) + after, before.len()) == (
            list,
            before.len() + written_all(list).len() + if after.len() == 0 { 0nat } else { 1nat },
        ),
    decreases list,
{
    let tokens = before + written_all(list) + after;
    let pos = before.len();
    if list.len() == 0 {
        lemma_read_end(tokens, pos);
    } else {
        let e = list[0];
        let rest = list.drop_first();
        lemma_written_all_unfolds(list);
        lemma_join_regroups(before, written(e), written_all(rest), after);
        let close = before + written(e);
        lemma_parse_list_reads_back(close, rest, after);
        match e {
            ExprModel::Text(s) => {
                lemma_read_atom(tokens, pos);
            },
            ExprModel::Tree(children) => {
                let open = before + seq!["("@];
                let tail = seq![")"@] + (written_all(rest) + after);
                lemma_join_regroups(before, seq!["("@], written_all(children), seq![")"@]);
                lemma_join_regroups(
                    open,
                    written_all(children),
                    seq![")"@],
                    written_all(rest) + after,
                );
                lemma_join_regroups(close, written_all(rest), after, Seq::empty());
                assert(tokens == open + written_all(children) + tail);
                lemma_parse_list_reads_back(open, children, tail);
                assert(tokens[pos as int] == "("@);
                lemma_read_nested(tokens, pos);
                assert(seq![e] + rest =~= list);
            },
            ExprModel::Bound(_) => {},
        }
    }
}

/// What is written is read back: the tree builder, from the start of the tokens
/// that a list of expressions is written as, yields that list and reads every token.
pub proof fn lemma_written_is_read_back(list: Seq<ExprModel>)
    requires
        all_writable(list),
    ensures
        parse_list(written_all(list), 0) == (list, written_all(list).len()),
{
    lemma_parse_list_reads_back(Seq::empty(), list, Seq::empty());
    assert(Seq::<Seq<char>>::empty() + written_all(list) + Seq::<Seq<char>>::empty()
        =~= written_all(list));
}

/// `e` holds atoms and lists only, and each atom has the form of an atom.
pub open spec fn is_printable(e: ExprModel) -> bool
    decreases e,
{
    match e {
        ExprModel::Text(s) => is_atom(s),
        ExprModel::Bound(_) => false,
        ExprModel::Tree(list) => all_printable(list),
    }
}

/// Every expression of `list` is printable.
pub open spec fn all_printable(list: Seq<ExprModel>) -> bool
    decreases list,
{
    forall|i: int| 0 <= i < list.len() ==> is_printable(#[trigger] list[i])
}

/// Printable expressions are writable, and are written as tokens.
pub proof fn lemma_printable_is_written_as_tokens(list: Seq<ExprModel>)
    requires
        all_printable(list),
    ensures
        all_writable(list),
        forall|i: int|
            0 <= i < written_all(list).len() ==> is_token(#[trigger] written_all(list)[i]),
    decreases list,
{
    reveal_strlit("(");
    reveal_strlit(")");
    if list.len() > 0 {
        let e = list[0];
        let rest = list.drop_first();
        assert(is_printable(e));
        assert forall|i: int| 0 <= i < rest.len() implies is_printable(#[trigger] rest[i]) by {
            assert(rest[i] == list[i + 1]);
        }
        lemma_printable_is_written_as_tokens(rest);
        let w = written_all(list);
        assert(w == written(e) + written_all(rest));
        match e {
            ExprModel::Text(s) => {
                assert(!is_paren(s[0]));
                assert(is_writable(e));
            },
            ExprModel::Tree(children) => {
                lemma_printable_is_written_as_tokens(children);
                assert(is_writable(e));
                assert(is_token("("@));
                assert(is_token(")"@));
            },
            ExprModel::Bound(_) => {},
        }
        assert forall|i: int| 0 <= i < list.len() implies is_writable(#[trigger] list[i]) by {
            if i > 0 {
                assert(list[i] == rest[i - 1]);
            }
        }
        assert forall|i: int| 0 <= i < w.len() implies is_token(#[trigger] w[i]) by {
            let n = written(e).len() as int;
            if i >= n {
                assert(w[i] == written_all(rest)[i - n]);
            } else {
                assert(w[i] == written(e)[i]);
                match e {
                    ExprModel::Tree(children) => {
                        if 0 < i < n - 1 {
                            assert(w[i] == written_all(children)[i - 1]);
                        }
                    },
                    _ => {},
                }
            }
        }
    }
}

/// Lexer and tree builder together invert writing: the text that printable
/// expressions are written as, with a space after each token, is read back as these
/// expressions.
pub proof fn lemma_text_is_read_back(list: Seq<ExprModel>)
    requires
        all_printable(list),
    ensures
        parse_list(tokens(spaced(written_all(list))), 0).0 == list,
{
    lemma_printable_is_written_as_tokens(list);
    lemma_tokens_of_spaced(written_all(list));
    lemma_written_is_read_back(list);
}

impl ParseTree {
    /// Appends `ex` to the list.
    pub fn add_expr(&mut self, ex: Expr)
        ensures
            final(self)@ == old(self)@.push(ex@),
    {
        self.list.push(ex);
        assert(self@ =~= old(self)@.push(ex@));
    }
}

/// Builds the list that starts at token `cursor`, and leaves `cursor` after it. The
/// list holds atoms and nested lists only.
pub fn build_tree(parsed: &Vec<&str>, cursor: &mut usize) -> (pt: ParseTree)
    ensures
        (pt@, *final(cursor) as nat) == parse_list(strs_view(parsed@), *old(cursor) as nat),
        all_parsed(pt@),
        *old(cursor) <= *final(cursor),
        *old(cursor) <= parsed.len() ==> *final(cursor) <= parsed.len(),
    decreases parsed.len() - *old(cursor),
{
    let ghost tokens = strs_view(parsed@);
    let ghost start = *cursor as nat;
    let mut pt = ParseTree { list: Vec::<Expr>::new() };
    assert(pt@ =~= Seq::empty());
    proof {
        lemma_parse_list_is_parsed(tokens, start);
    }
    while *cursor < parsed.len()
        invariant
            tokens == strs_view(parsed@),
            all_parsed(parse_list(tokens, start).0),
            start <= *cursor,
            *old(cursor) == start,
            start <= parsed.len() ==> *cursor <= parsed.len(),
            parse_list(tokens, start) == (
                pt@ + parse_list(tokens, *cursor as nat).0,
                parse_list(tokens, *cursor as nat).1,
            ),
        decreases parsed.len() - *cursor,
    {
        let ch = parsed[*cursor];
        let ghost here = *cursor as nat;
        assert(tokens[here as int] == ch@);
        if str_equal(ch, ")") {
            *cursor = *cursor + 1;
            return pt;
        }
        if str_equal(ch, "(") {
            *cursor = *cursor + 1;
            let child = build_tree(parsed, cursor);
            pt.add_expr(Expr::Tree(Box::new(child)));
            proof {
                lemma_parse_list_advances(tokens, here + 1);
            }
        } else {
            pt.add_expr(Expr::Text(String::from_str(ch)));
            *cursor = *cursor + 1;
        }
    }
    pt
}

} // verus!
