//! The top-level driver: defines, retries and the lines a program prints.

use vstd::prelude::*;
use crate::atom::str_equal;
use crate::eval::{eval, eval_scheme, lemma_eval_deeper, option_model};
use crate::lexer::{tokenize_scheme, tokens};
use crate::parser::{build_tree, lemma_parsed_is_wf, parse_list};
use crate::render::{render, shown};
use crate::syntax::{exprs_model, names_view, Expr, ExprModel, ParseTree, Val, ValModel};
use crate::table::{Definitions, Table};

verus! {

/// What becomes of an evaluation's outcome under the definitions. A deferred
/// expression is retried, after the definitions were substituted into it, as long as
/// a retry is left and some defined name occurs free in it; otherwise it stays
/// deferred. Any other outcome stands.
pub open spec fn settle(outcome: Option<ValModel>, table: Table, depth: nat, retries: nat) -> Option<
    ValModel,
>
    decreases retries,
{
    match outcome {
        Some(ValModel::Unbound(exp)) => if retries == 0 || table.stuck(exp) {
            outcome
        } else {
            settle(eval(table.substitute(exp), depth), table, depth, (retries - 1) as nat)
        },
        _ => outcome,
    }
}

/// The value of `e` under the definitions: `e` is evaluated, and a deferred result is
/// retried at most `retries` times. `None` where a nesting of `depth` does not
/// suffice for one of the evaluations.
pub open spec fn resolve(e: ExprModel, table: Table, depth: nat, retries: nat) -> Option<ValModel> {
    settle(eval(e, depth), table, depth, retries)
}

/// An outcome is final under the definitions: it is no deferred expression, or one
/// that no definition can bring further.
pub open spec fn is_final(outcome: Option<ValModel>, table: Table) -> bool {
    match outcome {
        Some(ValModel::Unbound(exp)) => table.stuck(exp),
        _ => true,
    }
}

/// A result that is reached at one depth is reached at every greater depth.
pub proof fn lemma_settle_deeper(
    outcome: Option<ValModel>,
    table: Table,
    depth: nat,
    deeper: nat,
    retries: nat,
)
    requires
        depth <= deeper,
        settle(outcome, table, depth, retries) is Some,
    ensures
        settle(outcome, table, deeper, retries) == settle(outcome, table, depth, retries),
    decreases retries,
{
    match outcome {
        Some(ValModel::Unbound(exp)) => {
            if !(retries == 0 || table.stuck(exp)) {
                let next = eval(table.substitute(exp), depth);
                assert(next is Some) by {
                    reveal_with_fuel(settle, 2);
                }
                lemma_eval_deeper(table.substitute(exp), depth, deeper);
                lemma_settle_deeper(next, table, depth, deeper, (retries - 1) as nat);
            }
        },
        _ => {},
    }
}

/// A value that `resolve` reaches at one depth it reaches at every greater depth.
pub proof fn lemma_resolve_deeper(
    e: ExprModel,
    table: Table,
    depth: nat,
    deeper: nat,
    retries: nat,
)
    requires
        depth <= deeper,
        resolve(e, table, depth, retries) is Some,
    ensures
        resolve(e, table, deeper, retries) == resolve(e, table, depth, retries),
{
    lemma_eval_deeper(e, depth, deeper);
    lemma_settle_deeper(eval(e, depth), table, depth, deeper, retries);
}

/// A final result stays the same however many more retries are allowed.
pub proof fn lemma_settle_more_retries(
    outcome: Option<ValModel>,
    table: Table,
    depth: nat,
    retries: nat,
    more: nat,
)
    requires
        retries <= more,
        is_final(settle(outcome, table, depth, retries), table),
    ensures
        settle(outcome, table, depth, more) == settle(outcome, table, depth, retries),
    decreases retries,
{
    match outcome {
        Some(ValModel::Unbound(exp)) => {
            if !table.stuck(exp) && retries > 0 {
                lemma_settle_more_retries(
                    eval(table.substitute(exp), depth),
                    table,
                    depth,
                    (retries - 1) as nat,
                    (more - 1) as nat,
                );
            }
        },
        _ => {},
    }
}

/// A final value of `resolve` stays the same however many more retries are allowed.
pub proof fn lemma_resolve_more_retries(
    e: ExprModel,
    table: Table,
    depth: nat,
    retries: nat,
    more: nat,
)
    requires
        retries <= more,
        is_final(resolve(e, table, depth, retries), table),
    ensures
        resolve(e, table, depth, more) == resolve(e, table, depth, retries),
{
    lemma_settle_more_retries(eval(e, depth), table, depth, retries, more);
}

/// Evaluates `ex` under the definitions, nesting at most `depth` deep, and retries a
/// deferred result at most `retries` times.
pub fn eval_scheme_with_def(
    ex: &Expr,
    definitions: &Definitions,
    depth: usize,
    retries: usize,
) -> (r: Option<Val>)
    requires
        ex.wf(),
        definitions.wf(),
    ensures
        option_model(r) == resolve(ex@, definitions@, depth as nat, retries as nat),
        r matches Some(v) ==> v.wf(),
{
    let mut result = eval_scheme(ex, depth);
    let mut left = retries;
    loop
        invariant
            definitions.wf(),
            result matches Some(v) ==> v.wf(),
            settle(option_model(result), definitions@, depth as nat, left as nat) == resolve(
                ex@,
                definitions@,
                depth as nat,
                retries as nat,
            ),
        decreases left,
    {
        match result {
            Some(Val::Unbound(exp)) => {
                if left == 0 || !definitions.mentions_any(&exp) {
                    return Some(Val::Unbound(exp));
                }
                let bound = definitions.substitute(exp);
                result = eval_scheme(&bound, depth);
                left = left - 1;
            },
            other => {
                return other;
            },
        }
    }
}

/// What a top-level form contributes to the output.
pub enum StepModel {
    /// Nothing is printed.
    Quiet,
    /// One line is printed.
    Line(Seq<char>),
    /// Evaluation did not finish within the nesting allowed.
    Exhausted,
}

/// What the final value of a top-level form prints: its line, and `Error` where it
/// is still deferred.
pub open spec fn printed(v: ValModel) -> StepModel {
    if v is Unbound {
        StepModel::Line("Error"@)
    } else {
        match shown(v) {
            Some(line) => StepModel::Line(line),
            None => StepModel::Quiet,
        }
    }
}

/// The texts of the atoms among `items`, in order.
pub open spec fn parameters(items: Seq<ExprModel>) -> Seq<Seq<char>>
    decreases items.len(),
{
    if items.len() == 0 {
        Seq::empty()
    } else {
        let before = parameters(items.drop_last());
        match items.last() {
            ExprModel::Text(s) => before.push(s),
            _ => before,
        }
    }
}

/// `form` is a list whose first element is the atom `define`.
pub open spec fn is_define(form: ExprModel) -> bool {
    match form {
        ExprModel::Tree(list) => list.len() > 0 && list[0] == ExprModel::Text("define"@),
        _ => false,
    }
}

/// What the `define` form `list` does. With a name in second place, the third
/// element is evaluated under the definitions and stored under the name. With a
/// list in second place, its first atom names a function whose parameters are the
/// atoms that follow and whose body is the third element, stored unevaluated. A form
/// with fewer than three elements, or with an empty list in second place, prints
/// `Error`; one whose second element names nothing defines nothing.
pub open spec fn define_effect(list: Seq<ExprModel>, table: Table, depth: nat, retries: nat) -> (
    StepModel,
    Table,
) {
    if list.len() < 3 {
        (StepModel::Line("Error"@), table)
    } else {
        match list[1] {
            ExprModel::Text(var) => match resolve(list[2], table, depth, retries) {
                None => (StepModel::Exhausted, table),
                Some(v) => (StepModel::Quiet, table.define(var, v)),
            },
            ExprModel::Tree(bindings) => if bindings.len() == 0 {
                (StepModel::Line("Error"@), table)
            } else {
                match bindings[0] {
                    ExprModel::Text(var) => (
                        StepModel::Quiet,
                        table.define(
                            var,
                            ValModel::Function(parameters(bindings.drop_first()), list[2]),
                        ),
                    ),
                    _ => (StepModel::Quiet, table),
                }
            },
            ExprModel::Bound(_) => (StepModel::Quiet, table),
        }
    }
}

/// What a top-level form does: a `define` extends the table, any other form is
/// evaluated under the definitions and its final value printed.
pub open spec fn form_effect(form: ExprModel, table: Table, depth: nat, retries: nat) -> (
    StepModel,
    Table,
) {
    if is_define(form) {
        define_effect(form->Tree_0, table, depth, retries)
    } else {
        match resolve(form, table, depth, retries) {
            None => (StepModel::Exhausted, table),
            Some(v) => (printed(v), table),
        }
    }
}

/// The lines that the forms print, in order, starting from `table`, and whether all
/// forms were processed: the first form whose evaluation is exhausted ends the run.
pub open spec fn run_forms(forms: Seq<ExprModel>, table: Table, depth: nat, retries: nat) -> (
    Seq<Seq<char>>,
    bool,
)
    decreases forms.len(),
{
    if forms.len() == 0 {
        (Seq::empty(), true)
    } else {
        let (step, after) = form_effect(forms[0], table, depth, retries);
        match step {
            StepModel::Exhausted => (Seq::empty(), false),
            StepModel::Quiet => run_forms(forms.drop_first(), after, depth, retries),
            StepModel::Line(line) => {
                let (rest, complete) = run_forms(forms.drop_first(), after, depth, retries);
                (seq![line] + rest, complete)
            },
        }
    }
}

/// The output of the program `text`: its top-level forms, read up to the first
/// unmatched `)`, run in order from an empty table.
pub open spec fn run(text: Seq<char>, depth: nat, retries: nat) -> (Seq<Seq<char>>, bool) {
    run_forms(parse_list(tokens(text), 0).0, Table::empty(), depth, retries)
}

/// A form that finishes at one depth does the same at every greater depth.
pub proof fn lemma_form_effect_deeper(
    form: ExprModel,
    table: Table,
    depth: nat,
    deeper: nat,
    retries: nat,
)
    requires
        depth <= deeper,
        !(form_effect(form, table, depth, retries).0 is Exhausted),
    ensures
        form_effect(form, table, deeper, retries) == form_effect(form, table, depth, retries),
{
    if is_define(form) {
        let list = form->Tree_0;
        if list.len() >= 3 && list[1] is Text {
            lemma_resolve_deeper(list[2], table, depth, deeper, retries);
        }
    } else {
        lemma_resolve_deeper(form, table, depth, deeper, retries);
    }
}

/// A run that is complete at one depth gives the same output at every greater depth.
pub proof fn lemma_run_forms_deeper(
    forms: Seq<ExprModel>,
    table: Table,
    depth: nat,
    deeper: nat,
    retries: nat,
)
    requires
        depth <= deeper,
        run_forms(forms, table, depth, retries).1,
    ensures
        run_forms(forms, table, deeper, retries) == run_forms(forms, table, depth, retries),
    decreases forms.len(),
{
    if forms.len() > 0 {
        lemma_form_effect_deeper(forms[0], table, depth, deeper, retries);
        let after = form_effect(forms[0], table, depth, retries).1;
        lemma_run_forms_deeper(forms.drop_first(), after, depth, deeper, retries);
    }
}

/// A program that runs to completion at one depth prints the same at every greater
/// depth.
pub proof fn lemma_run_deeper(text: Seq<char>, depth: nat, deeper: nat, retries: nat)
    requires
        depth <= deeper,
        run(text, depth, retries).1,
    ensures
        run(text, deeper, retries) == run(text, depth, retries),
{
    lemma_run_forms_deeper(parse_list(tokens(text), 0).0, Table::empty(), depth, deeper, retries);
}

/// What a top-level form contributed to the output.
#[derive(Debug, PartialEq)]
pub enum Step {
    /// Nothing is printed.
    Quiet,
    /// One line is printed.
    Line(String),
    /// Evaluation did not finish within the nesting allowed.
    Exhausted,
}

impl View for Step {
    type V = StepModel;

    open spec fn view(&self) -> StepModel {
        match self {
            Step::Quiet => StepModel::Quiet,
            Step::Line(line) => StepModel::Line(line@),
            Step::Exhausted => StepModel::Exhausted,
        }
    }
}

/// The output of a program.
#[derive(Debug, PartialEq)]
pub struct Transcript {
    /// The printed lines, in order.
    pub lines: Vec<String>,
    /// Whether every top-level form was processed.
    pub complete: bool,
}

/// The character sequences of a sequence of strings.
pub open spec fn lines_view(lines: Seq<String>) -> Seq<Seq<char>> {
    lines.map_values(|line: String| line@)
}

/// Runs the `define` form `tr`.
fn run_define(tr: &ParseTree, definitions: &mut Definitions, depth: usize, retries: usize) -> (step:
    Step)
    requires
        forall|j: int| 0 <= j < tr@.len() ==> (#[trigger] tr@[j]).wf(),
        old(definitions).wf(),
    ensures
        (step@, final(definitions)@) == define_effect(
            tr@,
            old(definitions)@,
            depth as nat,
            retries as nat,
        ),
        final(definitions).wf(),
{
    if tr.list.len() < 3 {
        return Step::Line(String::from_str("Error"));
    }
    assert(tr@[1] == tr.list[1]@ && tr@[2] == tr.list[2]@);
    match &tr.list[1] {
        Expr::Text(var) => match eval_scheme_with_def(&tr.list[2], definitions, depth, retries) {
            None => Step::Exhausted,
            Some(v) => {
                definitions.insert(var.clone(), v);
                Step::Quiet
            },
        },
        Expr::Tree(bindings) => {
            if bindings.list.len() == 0 {
                return Step::Line(String::from_str("Error"));
            }
            match &bindings.list[0] {
                Expr::Text(var) => {
                    let ghost items = bindings@.drop_first();
                    let mut bounded: Vec<String> = Vec::new();
                    let mut i: usize = 1;
                    while i < bindings.list.len()
                        invariant
                            1 <= i <= bindings.list.len(),
                            items == bindings@.drop_first(),
                            names_view(bounded@) == parameters(items.take(i - 1)),
                        decreases bindings.list.len() - i,
                    {
                        proof {
                            assert(items.take(i as int).drop_last() =~= items.take(i - 1));
                        }
                        match &bindings.list[i] {
                            Expr::Text(s) => {
                                bounded.push(s.clone());
                            },
                            _ => {},
                        }
                        i += 1;
                    }
                    assert(items.take(items.len() as int) =~= items);
                    definitions.insert(var.clone(), Val::Function(bounded, tr.list[2].clone()));
                    Step::Quiet
                },
                _ => Step::Quiet,
            }
        },
        Expr::Bound(_) => Step::Quiet,
    }
}

/// Runs one top-level form: a `define` extends `definitions`, any other form is
/// evaluated under them.
pub fn run_form(form: &Expr, definitions: &mut Definitions, depth: usize, retries: usize) -> (step:
    Step)
    requires
        form.wf(),
        old(definitions).wf(),
    ensures
        (step@, final(definitions)@) == form_effect(
            form@,
            old(definitions)@,
            depth as nat,
            retries as nat,
        ),
        final(definitions).wf(),
{
    match form {
        Expr::Tree(tr) => {
            if tr.list.len() > 0 {
                match &tr.list[0] {
                    Expr::Text(s) => {
                        if str_equal(s.as_str(), "define") {
                            return run_define(tr, definitions, depth, retries);
                        }
                    },
                    _ => {},
                }
            }
        },
        _ => {},
    }
    match eval_scheme_with_def(form, definitions, depth, retries) {
        None => Step::Exhausted,
        Some(Val::Unbound(_)) => Step::Line(String::from_str("Error")),
        Some(v) => match render(&v) {
            Some(line) => Step::Line(line),
            None => Step::Quiet,
        },
    }
}

/// A program that is being run, one top-level form at a time: the forms that are
/// still to run, and the definitions made so far.
pub struct Session {
    forms: Vec<Expr>,
    next: usize,
    definitions: Definitions,
}

impl Session {
    /// The forms hold no malformed number, the next form lies within them or at their
    /// end, and the table is well formed.
    #[verifier::type_invariant]
    closed spec fn inv(&self) -> bool {
        &&& self.next <= self.forms.len()
        &&& forall|j: int| 0 <= j < self.forms.len() ==> (#[trigger] self.forms[j]).wf()
        &&& self.definitions.wf()
    }

    /// The forms that are still to run, in order.
    pub closed spec fn pending(&self) -> Seq<ExprModel> {
        exprs_model(self.forms@).skip(self.next as int)
    }

    /// The definitions made so far.
    pub closed spec fn table(&self) -> Table {
        self.definitions@
    }

    /// Reads the program `text`: all its top-level forms are still to run, and
    /// nothing is defined.
    pub fn new(text: &str) -> (session: Session)
        ensures
            session.pending() == parse_list(tokens(text@), 0).0,
            session.table() == Table::empty(),
    {
        let parsed = tokenize_scheme(text);
        let mut cursor: usize = 0;
        let tree = build_tree(&parsed, &mut cursor);
        proof {
            assert forall|j: int| 0 <= j < tree@.len() implies (#[trigger] tree.list[j]).wf() by {
                lemma_parsed_is_wf(tree@[j]);
            }
            assert(tree@.skip(0) =~= tree@);
        }
        Session { forms: tree.list, next: 0, definitions: Definitions::new() }
    }

    /// Runs the next form, if one is left, and says what it contributed to the
    /// output. After a form whose evaluation was exhausted the run is at its end for
    /// the caller: `run_forms` goes no further.
    pub fn step(&mut self, depth: usize, retries: usize) -> (step: Option<Step>)
        ensures
            match step {
                None => old(self).pending().len() == 0 && final(self).pending() == old(
                    self,
                ).pending() && final(self).table() == old(self).table(),
                Some(s) => old(self).pending().len() > 0 && (s@, final(self).table())
                    == form_effect(
                    old(self).pending()[0],
                    old(self).table(),
                    depth as nat,
                    retries as nat,
                ) && final(self).pending() == old(self).pending().drop_first(),
            },
    {
        proof {
            use_type_invariant(&*self);
        }
        if self.next >= self.forms.len() {
            return None;
        }
        let ghost before = self.pending();
        assert(before[0] == self.forms[self.next as int]@);
        assert(before.drop_first() =~= exprs_model(self.forms@).skip(self.next + 1));
        let mut table = Definitions::new();
        core::mem::swap(&mut self.definitions, &mut table);
        let step = run_form(&self.forms[self.next], &mut table, depth, retries);
        core::mem::swap(&mut self.definitions, &mut table);
        self.next = self.next + 1;
        Some(step)
    }
}

/// Runs the program `text` and collects what it prints. Evaluation nests at most
/// `depth` deep, and a deferred result is retried at most `retries` times.
pub fn run_program(text: &str, depth: usize, retries: usize) -> (out: Transcript)
    ensures
        (lines_view(out.lines@), out.complete) == run(text@, depth as nat, retries as nat),
{
    let mut session = Session::new(text);
    let mut lines: Vec<String> = Vec::new();
    loop
        invariant
            run(text@, depth as nat, retries as nat) == (
                lines_view(lines@) + run_forms(
                    session.pending(),
                    session.table(),
                    depth as nat,
                    retries as nat,
                ).0,
                run_forms(session.pending(), session.table(), depth as nat, retries as nat).1,
            ),
        decreases session.pending().len(),
    {
        match session.step(depth, retries) {
            None => {
                return Transcript { lines, complete: true };
            },
            Some(Step::Quiet) => {},
            Some(Step::Line(line)) => {
                lines.push(line);
            },
            Some(Step::Exhausted) => {
                return Transcript { lines, complete: false };
            },
        }
    }
}

} // verus!
