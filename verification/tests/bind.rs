use scheme::bind::has_name;
use scheme::syntax::{Expr, ParseTree, Val};

fn text(s: &str) -> Expr {
    Expr::Text(String::from(s))
}

fn tree(list: Vec<Expr>) -> Expr {
    Expr::Tree(Box::new(ParseTree { list }))
}

fn bound(v: Val) -> Expr {
    Expr::Bound(Box::new(v))
}

fn function(params: &[&str], body: Expr) -> Val {
    Val::Function(params.iter().map(|p| String::from(*p)).collect(), body)
}

fn five() -> Val {
    Val::Number(false, 5, 1)
}

#[test]
fn a_matching_atom_becomes_a_bound_slot() {
    assert_eq!(text("x").bind_val(&String::from("x"), &five()), bound(five()));
}

#[test]
fn another_atom_stays() {
    assert_eq!(text("y").bind_val(&String::from("x"), &five()), text("y"));
}

#[test]
fn a_list_is_rewritten_element_by_element() {
    let e = tree(vec![text("+"), text("x"), tree(vec![text("*"), text("x"), text("y")])]);
    let expected = tree(vec![
        text("+"),
        bound(five()),
        tree(vec![text("*"), bound(five()), text("y")]),
    ]);
    assert_eq!(e.bind_val(&String::from("x"), &five()), expected);
}

#[test]
fn a_bound_value_that_is_no_function_stays() {
    let e = bound(Val::Unbound(text("x")));
    assert_eq!(e.clone().bind_val(&String::from("x"), &five()), e);
    let n = bound(Val::Number(true, 1, 2));
    assert_eq!(n.clone().bind_val(&String::from("x"), &five()), n);
}

#[test]
fn a_function_body_is_rewritten() {
    let f = bound(function(&["n"], tree(vec![text("+"), text("n"), text("x")])));
    let expected = bound(function(&["n"], tree(vec![text("+"), text("n"), bound(five())])));
    assert_eq!(f.bind_val(&String::from("x"), &five()), expected);
}

#[test]
fn a_parameter_shadows_the_name() {
    let f = bound(function(&["n", "x"], tree(vec![text("+"), text("n"), text("x")])));
    assert_eq!(f.clone().bind_val(&String::from("x"), &five()), f);
}

#[test]
fn binding_an_absent_name_changes_nothing() {
    let e = tree(vec![
        text("if"),
        tree(vec![text("number=?"), text("a"), text("1")]),
        bound(function(&["x"], tree(vec![text("x"), text("x")]))),
        tree(vec![]),
    ]);
    assert!(!e.mentions(&String::from("x")));
    assert!(!e.mentions(&String::from("b")));
    assert_eq!(e.clone().bind_val(&String::from("x"), &five()), e);
    assert_eq!(e.clone().bind_val(&String::from("b"), &five()), e);
}

#[test]
fn binding_a_present_name_changes_the_tree() {
    let e = tree(vec![text("f"), bound(function(&["n"], text("x")))]);
    assert!(e.mentions(&String::from("x")));
    assert!(e.mentions(&String::from("f")));
    assert!(!e.mentions(&String::from("n")));
    assert_ne!(e.clone().bind_val(&String::from("x"), &five()), e);
    assert_ne!(e.clone().bind_val(&String::from("f"), &five()), e);
}

#[test]
fn the_bound_value_is_copied_into_every_occurrence() {
    let v = function(&["a"], text("a"));
    let e = tree(vec![text("g"), text("g")]);
    assert_eq!(e.bind_val(&String::from("g"), &v), tree(vec![bound(v.clone()), bound(v)]));
}

#[test]
fn has_name_finds_a_parameter() {
    let names = vec![String::from("a"), String::from("b")];
    assert!(has_name(&names, &String::from("a")));
    assert!(has_name(&names, &String::from("b")));
    assert!(!has_name(&names, &String::from("c")));
    assert!(!has_name(&Vec::new(), &String::from("a")));
}

#[test]
fn clone_copies_an_expression() {
    let e = tree(vec![text("f"), bound(function(&["n"], text("x"))), tree(vec![text("1")])]);
    assert_eq!(e.clone(), e);
}

#[test]
fn binding_removes_the_name() {
    let e = tree(vec![
        text("x"),
        bound(function(&["n"], tree(vec![text("x"), text("n")]))),
        tree(vec![text("x")]),
    ]);
    let x = String::from("x");
    assert!(e.mentions(&x));
    assert!(!e.clone().bind_val(&x, &five()).mentions(&x));
    assert!(!e.clone().bind_val(&x, &function(&["x"], text("x"))).mentions(&x));
    assert!(e.bind_val(&x, &function(&["n"], text("x"))).mentions(&x));
}
