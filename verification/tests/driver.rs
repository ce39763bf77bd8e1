use scheme::driver::{eval_scheme_with_def, run_form, run_program, Step};
use scheme::render::render;
use scheme::table::Definitions;
use scheme::lexer::tokenize_scheme;
use scheme::parser::build_tree;
use scheme::syntax::{Expr, ParseTree, Val};

fn text(s: &str) -> Expr {
    Expr::Text(String::from(s))
}

fn tree(list: Vec<Expr>) -> Expr {
    Expr::Tree(Box::new(ParseTree { list }))
}

fn bound(v: Val) -> Expr {
    Expr::Bound(Box::new(v))
}

fn whole(n: u32) -> Val {
    Val::Number(false, n, 1)
}

fn parse(source: &str) -> Expr {
    let tokens = tokenize_scheme(source);
    let mut cursor = 0;
    let mut pt = build_tree(&tokens, &mut cursor);
    assert_eq!(pt.list.len(), 1);
    pt.list.remove(0)
}

fn output(text: &str) -> Vec<String> {
    let out = run_program(text, 64, 32);
    assert!(out.complete);
    out.lines
}

fn nothing() -> Vec<String> {
    Vec::new()
}

#[test]
fn renders_whole_numbers() {
    assert_eq!(render(&whole(0)), Some(String::from("0")));
    assert_eq!(render(&whole(7)), Some(String::from("7")));
    assert_eq!(render(&whole(10)), Some(String::from("10")));
    assert_eq!(render(&whole(1203)), Some(String::from("1203")));
    assert_eq!(render(&whole(4294967295)), Some(String::from("4294967295")));
}

#[test]
fn renders_sign_and_denominator() {
    assert_eq!(render(&Val::Number(true, 7, 1)), Some(String::from("-7")));
    assert_eq!(render(&Val::Number(false, 1, 2)), Some(String::from("1/2")));
    assert_eq!(render(&Val::Number(true, 10, 30)), Some(String::from("-10/30")));
    assert_eq!(render(&Val::Number(false, 3, 4294967295)), Some(String::from("3/4294967295")));
}

#[test]
fn renders_booleans_and_the_error() {
    assert_eq!(render(&Val::Boolean(true)), Some(String::from("true")));
    assert_eq!(render(&Val::Boolean(false)), Some(String::from("false")));
    assert_eq!(render(&Val::SchemeError()), Some(String::from("Error")));
}

#[test]
fn renders_no_line_for_functions_and_deferred_expressions() {
    assert_eq!(render(&Val::Function(vec![String::from("x")], text("x"))), None);
    assert_eq!(render(&Val::Unbound(text("x"))), None);
}

#[test]
fn a_new_table_is_empty() {
    assert_eq!(Definitions::new().len(), 0);
}

#[test]
fn insert_appends_a_new_name_and_replaces_an_old_one() {
    let mut table = Definitions::new();
    table.insert(String::from("x"), whole(1));
    table.insert(String::from("y"), whole(2));
    assert_eq!(table.len(), 2);
    table.insert(String::from("x"), whole(3));
    assert_eq!(table.len(), 2);
    assert_eq!(eval_scheme_with_def(&text("x"), &table, 8, 8), Some(whole(3)));
    assert_eq!(eval_scheme_with_def(&text("y"), &table, 8, 8), Some(whole(2)));
}

#[test]
fn mentions_any_looks_for_defined_names() {
    let mut table = Definitions::new();
    assert!(!table.mentions_any(&parse("(+ x y)")));
    table.insert(String::from("x"), whole(1));
    assert!(table.mentions_any(&parse("(+ x y)")));
    assert!(table.mentions_any(&parse("(f (g x))")));
    assert!(!table.mentions_any(&parse("(+ z y)")));
    assert!(!table.mentions_any(&parse("5")));
}

#[test]
fn substitute_binds_in_table_order() {
    let mut table = Definitions::new();
    table.insert(String::from("f"), Val::Function(vec![String::from("n")], parse("(+ n x)")));
    table.insert(String::from("x"), whole(5));
    let got = table.substitute(parse("(f x y)"));
    let body = tree(vec![text("+"), text("n"), bound(whole(5))]);
    assert_eq!(got, tree(vec![
        bound(Val::Function(vec![String::from("n")], body)),
        bound(whole(5)),
        text("y"),
    ]));
}

#[test]
fn substitute_in_the_other_order_leaves_the_inner_name() {
    let mut table = Definitions::new();
    table.insert(String::from("x"), whole(5));
    table.insert(String::from("f"), Val::Function(vec![String::from("n")], parse("(+ n x)")));
    let got = table.substitute(parse("(f x)"));
    assert_eq!(got, tree(vec![
        bound(Val::Function(vec![String::from("n")], parse("(+ n x)"))),
        bound(whole(5)),
    ]));
}

#[test]
fn a_value_that_is_not_deferred_needs_no_retry() {
    let table = Definitions::new();
    assert_eq!(eval_scheme_with_def(&parse("(+ 1 2)"), &table, 8, 0), Some(whole(3)));
    assert_eq!(eval_scheme_with_def(&parse("()"), &table, 8, 0), Some(Val::SchemeError()));
}

#[test]
fn without_retries_a_deferred_result_stays() {
    let mut table = Definitions::new();
    table.insert(String::from("x"), whole(5));
    let e = parse("(+ x 1)");
    assert_eq!(eval_scheme_with_def(&e, &table, 8, 0), Some(Val::Unbound(e.clone())));
    assert_eq!(eval_scheme_with_def(&e, &table, 8, 1), Some(whole(6)));
}

#[test]
fn a_result_that_no_definition_can_help_stays_deferred() {
    let mut table = Definitions::new();
    table.insert(String::from("x"), whole(5));
    let e = parse("(+ y 1)");
    assert_eq!(eval_scheme_with_def(&e, &table, 8, 1000000), Some(Val::Unbound(e.clone())));
}

#[test]
fn each_retry_substitutes_once_more() {
    let mut table = Definitions::new();
    table.insert(String::from("y"), Val::Unbound(parse("(+ x 1)")));
    table.insert(String::from("x"), whole(5));
    assert_eq!(eval_scheme_with_def(&text("y"), &table, 8, 0), Some(Val::Unbound(text("y"))));
    assert_eq!(eval_scheme_with_def(&text("y"), &table, 8, 1), Some(Val::Unbound(parse("(+ x 1)"))));
    assert_eq!(eval_scheme_with_def(&text("y"), &table, 8, 2), Some(whole(6)));
    assert_eq!(eval_scheme_with_def(&text("y"), &table, 8, 3), Some(whole(6)));
}

#[test]
fn exhausted_depth_ends_the_retries() {
    let mut table = Definitions::new();
    table.insert(String::from("x"), whole(5));
    assert_eq!(eval_scheme_with_def(&parse("(+ x 1)"), &table, 0, 8), None);
    assert_eq!(eval_scheme_with_def(&parse("(+ (+ x 1) 1)"), &table, 1, 8), None);
    assert_eq!(eval_scheme_with_def(&parse("(+ (+ x 1) 1)"), &table, 2, 8), Some(whole(7)));
    assert_eq!(eval_scheme_with_def(&text("x"), &table, 0, 8), Some(whole(5)));
}

#[test]
fn a_form_prints_its_value() {
    let mut table = Definitions::new();
    assert_eq!(run_form(&parse("(+ 1 2)"), &mut table, 8, 8), Step::Line(String::from("3")));
    assert_eq!(run_form(&parse("(lambda (x) x)"), &mut table, 8, 8), Step::Quiet);
    assert_eq!(run_form(&parse("(x)"), &mut table, 8, 8), Step::Line(String::from("Error")));
    assert_eq!(run_form(&parse("(+ 1 (+ 1 1))"), &mut table, 1, 8), Step::Exhausted);
    assert_eq!(run_form(&parse("(+ 1 (+ 1 1))"), &mut table, 2, 8), Step::Line(String::from("3")));
    assert_eq!(run_form(&parse("7"), &mut table, 0, 8), Step::Line(String::from("7")));
    assert_eq!(table.len(), 0);
}

#[test]
fn a_define_extends_the_table() {
    let mut table = Definitions::new();
    assert_eq!(run_form(&parse("(define x (+ 2 3))"), &mut table, 8, 8), Step::Quiet);
    assert_eq!(table.len(), 1);
    assert_eq!(run_form(&parse("(define (f a b) (+ a b x))"), &mut table, 8, 8), Step::Quiet);
    assert_eq!(table.len(), 2);
    assert_eq!(run_form(&parse("(f 1 2)"), &mut table, 8, 8), Step::Line(String::from("8")));
    assert_eq!(run_form(&parse("(define x 1)"), &mut table, 8, 8), Step::Quiet);
    assert_eq!(table.len(), 2);
    assert_eq!(run_form(&parse("(f 1 2)"), &mut table, 8, 8), Step::Line(String::from("4")));
}

#[test]
fn a_define_whose_value_is_exhausted_defines_nothing() {
    let mut table = Definitions::new();
    assert_eq!(run_form(&parse("(define x (+ 1 (+ 1 1)))"), &mut table, 1, 8), Step::Exhausted);
    assert_eq!(table.len(), 0);
}

#[test]
fn an_empty_program_prints_nothing() {
    assert_eq!(output(""), nothing());
    assert_eq!(output("   \n"), nothing());
}

#[test]
fn each_form_prints_a_line_in_order() {
    assert_eq!(output("1 (+ 1 1) (number=? 1 2) -4"), vec!["1", "2", "false", "-4"]);
}

#[test]
fn lines_break_nothing() {
    assert_eq!(output("(define x 5)\n(+ x\n   1)\n"), vec!["6"]);
}

#[test]
fn defines_print_nothing() {
    assert_eq!(output("(define x 5) (define (f n) n)"), nothing());
}

#[test]
fn functions_print_nothing() {
    assert_eq!(output("(lambda (x) x) (define (f n) n) f 3"), vec!["3"]);
}

#[test]
fn a_define_stores_the_evaluated_value() {
    assert_eq!(output("(define x (+ 1 2)) (define y (* x x)) y"), vec!["9"]);
}

#[test]
fn a_define_may_store_an_error() {
    assert_eq!(output("(define x ()) x (+ x 1)"), vec!["Error", "Error"]);
}

#[test]
fn a_later_define_replaces_an_earlier_one() {
    assert_eq!(output("(define x 1) x (define x 2) x"), vec!["1", "2"]);
}

#[test]
fn an_undefined_name_is_an_error_line() {
    assert_eq!(output("x"), vec!["Error"]);
    assert_eq!(output("(+ x 1)"), vec!["Error"]);
    assert_eq!(output("(f 1)"), vec!["Error"]);
    assert_eq!(output("(+ x 1) (define x 5) (+ x 1)"), vec!["Error", "6"]);
}

#[test]
fn errors_are_printed() {
    assert_eq!(output("() (1 2) (if 1 2 3) (number=? 1)"), vec!["Error", "Error", "Error", "Error"]);
}

#[test]
fn a_fraction_is_printed_with_its_denominator() {
    let mut table = Definitions::new();
    table.insert(String::from("half"), Val::Number(false, 1, 2));
    table.insert(String::from("third"), Val::Number(true, 1, 3));
    assert_eq!(
        run_form(&parse("(+ half third)"), &mut table, 8, 8),
        Step::Line(String::from("1/6"))
    );
    assert_eq!(
        run_form(&parse("(* half third)"), &mut table, 8, 8),
        Step::Line(String::from("-1/6"))
    );
    assert_eq!(
        run_form(&parse("(+ half half)"), &mut table, 8, 8),
        Step::Line(String::from("2/2"))
    );
    assert_eq!(
        run_form(&parse("(* half 2)"), &mut table, 8, 8),
        Step::Line(String::from("1"))
    );
}

#[test]
fn a_function_may_use_a_name_defined_after_it() {
    assert_eq!(output("(define (f n) (+ n x)) (define x 5) (f 1)"), vec!["6"]);
}

#[test]
fn a_deferred_definition_resolves_later() {
    assert_eq!(output("(define y (+ x 1)) (define x 5) y"), vec!["6"]);
}

#[test]
fn a_deferred_value_in_a_slot_is_not_rewritten() {
    assert_eq!(output("(define y (+ x 1)) (define x 5) (+ y y)"), vec!["Error"]);
}

#[test]
fn a_function_shorthand_keeps_its_atoms_as_parameters() {
    assert_eq!(output("(define (f a (b) c) (+ a c)) (f 1 2)"), vec!["3"]);
}

#[test]
fn a_function_without_parameters() {
    assert_eq!(output("(define (five) 5) (five)"), vec!["5"]);
}

#[test]
fn a_short_define_is_an_error_line() {
    assert_eq!(output("(define)"), vec!["Error"]);
    assert_eq!(output("(define x)"), vec!["Error"]);
    assert_eq!(output("(define (f))"), vec!["Error"]);
    assert_eq!(output("(define () 1)"), vec!["Error"]);
}

#[test]
fn a_define_that_names_nothing_defines_nothing() {
    assert_eq!(output("(define ((f) n) n) ((f) 1)"), vec!["Error"]);
}

#[test]
fn a_long_define_ignores_what_follows() {
    assert_eq!(output("(define x 1 2 3) x"), vec!["1"]);
}

#[test]
fn recursion_unrolls_through_the_retries() {
    let fact = "(define (fact n) (if (number=? n 0) 1 (* n (fact (- n 1)))))";
    assert_eq!(output(&format!("{fact} (fact 0)")), vec!["1"]);
    assert_eq!(output(&format!("{fact} (fact 1)")), vec!["1"]);
    assert_eq!(output(&format!("{fact} (fact 5)")), vec!["120"]);
    assert_eq!(output(&format!("{fact} (fact 10)")), vec!["3628800"]);
}

#[test]
fn recursion_with_cond() {
    let fib = "(define (fib n) (cond (number=? n 0) 0 (number=? n 1) 1 (number=? 1 1) \
               (+ (fib (- n 1)) (fib (- n 2)))))";
    assert_eq!(output(&format!("{fib} (fib 7)")), vec!["13"]);
}

#[test]
fn too_few_retries_leave_an_error_line() {
    let fact = "(define (fact n) (if (number=? n 0) 1 (* n (fact (- n 1)))))";
    let out = run_program(&format!("{fact} (fact 5) (fact 0)"), 64, 3);
    assert!(out.complete);
    assert_eq!(out.lines, vec!["Error", "1"]);
}

#[test]
fn endless_recursion_ends_with_the_retries() {
    let out = run_program("(define (loop n) (loop n)) (loop 1) 2", 64, 50);
    assert!(out.complete);
    assert_eq!(out.lines, vec!["Error", "2"]);
}

#[test]
fn endless_nesting_ends_the_run() {
    let out = run_program("1 ((lambda (x) (x x)) (lambda (x) (x x))) 2", 64, 8);
    assert!(!out.complete);
    assert_eq!(out.lines, vec!["1"]);
}

#[test]
fn a_form_nested_deeper_than_allowed_ends_the_run() {
    let out = run_program("(+ 1 1) (+ 1 (+ 1 (+ 1 1))) 3", 2, 8);
    assert!(!out.complete);
    assert_eq!(out.lines, vec!["2"]);
    let out = run_program("(+ 1 1) (+ 1 (+ 1 (+ 1 1))) 3", 3, 8);
    assert!(out.complete);
    assert_eq!(out.lines, vec!["2", "4", "3"]);
}

#[test]
fn a_stray_closing_parenthesis_ends_the_program() {
    assert_eq!(output("1 2 ) 3 4"), vec!["1", "2"]);
}

#[test]
fn an_unclosed_form_is_closed_by_the_end() {
    assert_eq!(output("(+ 1 (+ 2 3"), vec!["6"]);
}

#[test]
fn zero_is_printed_without_a_sign() {
    assert_eq!(output("(* -3 0) (* 0 -3) (* -3 0 -2) (+ -3 3) (- 0 0) -0"), vec![
        "0", "0", "0", "0", "0", "0",
    ]);
}

#[test]
fn overflow_is_an_error_line() {
    assert_eq!(output("(* 65536 65536)"), vec!["Error"]);
    assert_eq!(output("(+ 2147483647 2147483647 2147483647)"), vec!["Error"]);
    assert_eq!(output("(- 0 2147483647 2147483647 1)"), vec!["-4294967295"]);
}

#[test]
fn a_printed_whole_number_reads_back() {
    let cases = [
        (false, 0),
        (false, 7),
        (true, 7),
        (false, 10),
        (true, 1000),
        (false, 2147483647),
        (true, 2147483647),
        (true, 2147483648),
    ];
    for (neg, n) in cases {
        let v = Val::Number(neg, n, 1);
        let line = render(&v).unwrap();
        assert_eq!(scheme::atom::atom_val(&line), v);
    }
}

#[test]
fn more_depth_does_not_change_a_complete_run() {
    let program = "(define (fact n) (if (number=? n 0) 1 (* n (fact (- n 1))))) (fact 4) (+ 1 2)";
    let shallow = run_program(program, 3, 16);
    assert!(!shallow.complete);
    let first = run_program(program, 40, 16);
    assert!(first.complete);
    assert_eq!(first.lines, vec!["24", "3"]);
    for depth in [41, 64, 200] {
        assert_eq!(run_program(program, depth, 16), first);
    }
}

#[test]
fn more_retries_do_not_change_a_final_value() {
    let mut table = Definitions::new();
    table.insert(String::from("y"), Val::Unbound(parse("(+ x 1)")));
    table.insert(String::from("x"), whole(5));
    for retries in [2, 3, 10, 1000] {
        assert_eq!(eval_scheme_with_def(&text("y"), &table, 8, retries), Some(whole(6)));
        assert_eq!(
            eval_scheme_with_def(&parse("(+ z 1)"), &table, 8, retries),
            Some(Val::Unbound(parse("(+ z 1)")))
        );
    }
}

fn steps(text: &str, depth: usize, retries: usize) -> Vec<Step> {
    let mut session = scheme::driver::Session::new(text);
    let mut out = Vec::new();
    while let Some(step) = session.step(depth, retries) {
        out.push(step);
    }
    assert_eq!(session.step(depth, retries), None);
    out
}

fn line(s: &str) -> Step {
    Step::Line(String::from(s))
}

#[test]
fn a_session_runs_one_form_with_each_step() {
    assert_eq!(steps("(define x 5) (+ x 1) (lambda (n) n) y", 16, 8), vec![
        Step::Quiet,
        line("6"),
        Step::Quiet,
        line("Error"),
    ]);
}

#[test]
fn a_session_of_an_empty_program_has_no_step() {
    assert_eq!(steps("", 16, 8), Vec::new());
    assert_eq!(steps(" ) (+ 1 2)", 16, 8), Vec::new());
}

#[test]
fn a_session_keeps_its_definitions_between_steps() {
    let mut session = scheme::driver::Session::new("(define (f n) (* n x)) (define x 3) (f 4) (f x)");
    assert_eq!(session.step(16, 8), Some(Step::Quiet));
    assert_eq!(session.step(16, 8), Some(Step::Quiet));
    assert_eq!(session.step(16, 8), Some(line("12")));
    assert_eq!(session.step(16, 8), Some(line("9")));
    assert_eq!(session.step(16, 8), None);
    assert_eq!(session.step(16, 8), None);
}

#[test]
fn a_session_reports_an_exhausted_form() {
    let mut session = scheme::driver::Session::new("1 (+ 1 (+ 1 1)) 2");
    assert_eq!(session.step(1, 8), Some(line("1")));
    assert_eq!(session.step(1, 8), Some(Step::Exhausted));
}

#[test]
fn a_session_steps_may_differ_in_their_limits() {
    let mut session = scheme::driver::Session::new("(+ 1 (+ 1 1)) (+ 1 (+ 1 1))");
    assert_eq!(session.step(1, 0), Some(Step::Exhausted));
    assert_eq!(session.step(2, 0), Some(line("3")));
}

#[test]
fn the_steps_of_a_session_are_the_lines_of_the_program() {
    let program = "(define (fact n) (if (number=? n 0) 1 (* n (fact (- n 1))))) (fact 6) x (* -2 0)";
    let lines: Vec<String> = steps(program, 64, 32)
        .into_iter()
        .filter_map(|step| match step {
            Step::Line(l) => Some(l),
            _ => None,
        })
        .collect();
    assert_eq!(lines, run_program(program, 64, 32).lines);
    assert_eq!(lines, vec!["720", "Error", "0"]);
}

#[test]
fn limits_without_bound_run_a_deep_recursion() {
    let program = "(define (sum n) (if (number=? n 0) 0 (+ n (sum (- n 1))))) (sum 40)";
    let out = run_program(program, usize::MAX, usize::MAX);
    assert!(out.complete);
    assert_eq!(out.lines, vec!["820"]);
}
