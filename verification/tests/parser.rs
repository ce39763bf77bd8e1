use scheme::lexer::tokenize_scheme;
use scheme::parser::build_tree;
use scheme::syntax::{Expr, ParseTree};

fn text(s: &str) -> Expr {
    Expr::Text(String::from(s))
}

fn tree(list: Vec<Expr>) -> Expr {
    Expr::Tree(Box::new(ParseTree { list }))
}

fn parse(source: &str) -> (ParseTree, usize) {
    let tokens = tokenize_scheme(source);
    let mut cursor = 0;
    let pt = build_tree(&tokens, &mut cursor);
    (pt, cursor)
}

#[test]
fn no_tokens_give_an_empty_list() {
    let (pt, cursor) = parse("");
    assert!(pt.list.is_empty());
    assert_eq!(cursor, 0);
}

#[test]
fn top_level_atoms_are_leaves() {
    let (pt, cursor) = parse("a 1 b");
    assert_eq!(pt.list, vec![text("a"), text("1"), text("b")]);
    assert_eq!(cursor, 3);
}

#[test]
fn a_form_becomes_a_nested_list() {
    let (pt, cursor) = parse("(+ 1 2)");
    assert_eq!(pt.list, vec![tree(vec![text("+"), text("1"), text("2")])]);
    assert_eq!(cursor, 5);
}

#[test]
fn nesting_mirrors_the_parentheses() {
    let (pt, _) = parse("(define (square n) (* n n)) (square 4)");
    assert_eq!(pt.list, vec![
        tree(vec![
            text("define"),
            tree(vec![text("square"), text("n")]),
            tree(vec![text("*"), text("n"), text("n")]),
        ]),
        tree(vec![text("square"), text("4")]),
    ]);
}

#[test]
fn an_empty_pair_of_parentheses_is_an_empty_list() {
    let (pt, _) = parse("() (())");
    assert_eq!(pt.list, vec![tree(vec![]), tree(vec![tree(vec![])])]);
}

#[test]
fn the_end_of_input_closes_open_lists() {
    let (pt, cursor) = parse("(a (b c");
    assert_eq!(pt.list, vec![tree(vec![text("a"), tree(vec![text("b"), text("c")])])]);
    assert_eq!(cursor, 5);
}

#[test]
fn an_unmatched_closing_parenthesis_ends_the_outermost_list() {
    let (pt, cursor) = parse("a ) b");
    assert_eq!(pt.list, vec![text("a")]);
    assert_eq!(cursor, 2);
}

#[test]
fn building_may_start_in_the_middle() {
    let tokens = tokenize_scheme("(a (b c) d) e");
    let mut cursor = 3;
    let pt = build_tree(&tokens, &mut cursor);
    assert_eq!(pt.list, vec![text("b"), text("c")]);
    assert_eq!(cursor, 6);
    let rest = build_tree(&tokens, &mut cursor);
    assert_eq!(rest.list, vec![text("d")]);
    assert_eq!(cursor, 8);
}

#[test]
fn a_cursor_past_the_end_is_left_alone() {
    let tokens = tokenize_scheme("a b");
    let mut cursor = 7;
    let pt = build_tree(&tokens, &mut cursor);
    assert!(pt.list.is_empty());
    assert_eq!(cursor, 7);
}

#[test]
fn add_expr_appends() {
    let mut pt = ParseTree { list: Vec::new() };
    pt.add_expr(text("a"));
    pt.add_expr(tree(vec![]));
    assert_eq!(pt.list, vec![text("a"), tree(vec![])]);
}

fn write(e: &Expr, out: &mut Vec<String>) {
    match e {
        Expr::Text(s) => out.push(s.clone()),
        Expr::Tree(pt) => {
            out.push(String::from("("));
            for child in &pt.list {
                write(child, out);
            }
            out.push(String::from(")"));
        },
        Expr::Bound(_) => unreachable!(),
    }
}

#[test]
fn what_is_written_is_read_back() {
    let list = vec![
        tree(vec![text("define"), tree(vec![text("f"), text("n")]), tree(vec![
            text("if"),
            tree(vec![text("number=?"), text("n"), text("0")]),
            tree(vec![]),
            tree(vec![tree(vec![text("g")]), text("n")]),
        ])]),
        text("x"),
        tree(vec![tree(vec![tree(vec![])])]),
    ];
    let mut written = Vec::new();
    for e in &list {
        write(e, &mut written);
    }
    let tokens: Vec<&str> = written.iter().map(|t| t.as_str()).collect();
    let mut cursor = 0;
    let pt = build_tree(&tokens, &mut cursor);
    assert_eq!(pt.list, list);
    assert_eq!(cursor, tokens.len());
}
