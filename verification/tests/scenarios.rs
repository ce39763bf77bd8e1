use scheme::driver::run_program;
use scheme::lexer::tokenize_scheme;
use scheme::syntax::Val;

fn lines(text: &str) -> Vec<String> {
    let out = run_program(text, 64, 32);
    assert!(out.complete);
    out.lines
}

#[test]
fn lexes_a_simple_form() {
    assert_eq!(tokenize_scheme("(+ 1 2)"), vec!["(", "+", "1", "2", ")"]);
}

#[test]
fn lexes_adjacent_parentheses() {
    assert_eq!(tokenize_scheme("(())"), vec!["(", "(", ")", ")"]);
}

#[test]
fn multiply_reduces_to_lowest_terms() {
    let product = Val::Number(false, 2, 4) * Val::Number(false, 3, 6);
    assert_eq!(product, Val::Number(false, 1, 4));
}

#[test]
fn add_of_a_value_and_its_negation_is_zero() {
    assert_eq!(Val::Number(false, 3, 7) + Val::Number(true, 3, 7), Val::Number(false, 0, 1));
    assert_eq!(Val::Number(true, 5, 6) + Val::Number(false, 5, 6), Val::Number(false, 0, 1));
    assert_eq!(Val::Number(false, 2, 4) + Val::Number(true, 2, 4), Val::Number(false, 0, 1));
}

#[test]
fn adds_three_numbers() {
    assert_eq!(lines("(+ 1 2 3)"), vec!["6"]);
}

#[test]
fn multiplies_then_compares() {
    assert_eq!(lines("(* 2 3) (number=? 6 6)"), vec!["6", "true"]);
}

#[test]
fn if_does_not_evaluate_the_other_branch() {
    assert_eq!(lines("(if (number=? 1 1) 10 (undefined-name))"), vec!["10"]);
}

#[test]
fn a_defined_name_resolves() {
    assert_eq!(lines("(define x 5) (+ x 1)"), vec!["6"]);
}

#[test]
fn a_reference_before_its_define_resolves() {
    assert_eq!(lines("(define (f n) (+ n x)) (define x 5) (f 1)"), vec!["6"]);
    assert_eq!(lines("(define y (+ x 1)) (define x 5) y"), vec!["6"]);
}

#[test]
fn applies_a_defined_function() {
    assert_eq!(lines("(define (square n) (* n n)) (square 4)"), vec!["16"]);
}

#[test]
fn wrong_number_of_arguments_is_an_error() {
    assert_eq!(lines("(define (square n) (* n n)) (square)"), vec!["Error"]);
    assert_eq!(lines("(define (square n) (* n n)) (square 1 2)"), vec!["Error"]);
}

#[test]
fn comparing_a_number_with_a_name_is_an_error() {
    assert_eq!(lines("(number=? 1 true)"), vec!["Error"]);
}

#[test]
fn adding_a_name_is_an_error() {
    assert_eq!(lines("(+ 1 true)"), vec!["Error"]);
}

#[test]
fn comparing_a_number_with_a_boolean_is_an_error() {
    assert_eq!(lines("(define true (number=? 1 1)) true (number=? 1 true)"), vec!["true", "Error"]);
}

#[test]
fn adding_a_boolean_is_an_error() {
    assert_eq!(lines("(define true (number=? 1 1)) (+ 1 true)"), vec!["Error"]);
}

#[test]
fn a_forward_reference_at_top_level_is_an_error_line() {
    assert_eq!(lines("(+ x 1) (define x 5) (+ x 1)"), vec!["Error", "6"]);
}
