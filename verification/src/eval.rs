//! The evaluator: special forms, deferral and application by substitution.

use vstd::prelude::*;
use crate::atom::{atom_val, atom_value, str_equal};
use crate::bind::{bind_first, lemma_bind_wf};
use crate::syntax::{all_wf, names_view, vals_model, Expr, ExprModel, ParseTree, Val, ValModel};

verus! {

/// The deferred reference to the name `word`: what an atom that is no numeral
/// evaluates to.
pub open spec fn keyword(word: Seq<char>) -> ValModel {
    ValModel::Unbound(ExprModel::Text(word))
}

/// How a value stands in an expression: a deferred expression as itself, any other
/// value in a bound slot.
pub open spec fn quote(v: ValModel) -> ExprModel {
    match v {
        ValModel::Unbound(e) => e,
        other => ExprModel::Bound(Box::new(other)),
    }
}

/// `+`: the arguments folded with `Add`, starting from 0.
pub open spec fn sum_of(args: Seq<ValModel>) -> ValModel {
    args.fold_left(ValModel::Number(false, 0, 1), |acc: ValModel, x: ValModel| acc.plus(x))
}

/// `*`: the arguments folded with `Multiply`, starting from 1.
pub open spec fn product_of(args: Seq<ValModel>) -> ValModel {
    args.fold_left(ValModel::Number(false, 1, 1), |acc: ValModel, x: ValModel| acc.times(x))
}

/// `first` with each of `rest` subtracted from it in turn.
pub open spec fn subtract_from(first: ValModel, rest: Seq<ValModel>) -> ValModel {
    rest.fold_left(first, |acc: ValModel, x: ValModel| acc.minus(x))
}

/// `-`: the first argument, which must be a number, with each later argument
/// subtracted from it in turn. No argument at all is an error.
pub open spec fn difference_of(args: Seq<ValModel>) -> ValModel {
    if args.len() > 0 && args[0] is Number {
        subtract_from(args[0], args.drop_first())
    } else {
        ValModel::SchemeError
    }
}

/// `number=?`: on exactly two numbers, whether sign, numerator and denominator all
/// agree; an error on anything else.
pub open spec fn numbers_equal(args: Seq<ValModel>) -> ValModel {
    if args.len() == 2 && args[0] is Number && args[1] is Number {
        ValModel::Boolean(args[0] == args[1])
    } else {
        ValModel::SchemeError
    }
}

/// Every element of `list` is an atom.
pub open spec fn all_atoms(list: Seq<ExprModel>) -> bool {
    forall|i: int| 0 <= i < list.len() ==> (#[trigger] list[i]) is Text
}

/// The texts of a list of atoms.
pub open spec fn atom_texts(list: Seq<ExprModel>) -> Seq<Seq<char>> {
    Seq::new(list.len(), |i: int| list[i]->Text_0)
}

/// `lambda`: the first argument must be a deferred list of atoms, the parameter
/// names; the second is the body, kept unevaluated. Further arguments are ignored.
pub open spec fn lambda_of(args: Seq<ValModel>) -> ValModel {
    if args.len() >= 2 {
        match args[0] {
            ValModel::Unbound(ExprModel::Tree(names)) => if all_atoms(names) {
                ValModel::Function(atom_texts(names), quote(args[1]))
            } else {
                ValModel::SchemeError
            },
            _ => ValModel::SchemeError,
        }
    } else {
        ValModel::SchemeError
    }
}

/// A call of a name that is no primitive, quoted again for a later attempt: the name
/// followed by the evaluated arguments.
pub open spec fn requote(name: Seq<char>, args: Seq<ValModel>) -> ValModel {
    ValModel::Unbound(
        ExprModel::Tree(seq![ExprModel::Text(name)] + args.map_values(|v: ValModel| quote(v))),
    )
}

/// The result of a call of the primitive or unknown name `name` on `args`.
pub open spec fn apply_name(name: Seq<char>, args: Seq<ValModel>) -> ValModel {
    if name == "+"@ {
        sum_of(args)
    } else if name == "-"@ {
        difference_of(args)
    } else if name == "*"@ {
        product_of(args)
    } else if name == "number=?"@ {
        numbers_equal(args)
    } else if name == "lambda"@ {
        lambda_of(args)
    } else {
        requote(name, args)
    }
}

/// The value of `e` where forms may nest `depth` deep in evaluation, and `None` where
/// that does not suffice. An atom has its value and a bound slot the value it
/// holds, at any depth; only a form takes up depth.
pub open spec fn eval(e: ExprModel, depth: nat) -> Option<ValModel>
    decreases depth, 0nat,
{
    match e {
        ExprModel::Text(s) => Some(atom_value(s)),
        ExprModel::Bound(v) => Some(*v),
        ExprModel::Tree(list) => if depth == 0 {
            None
        } else {
            eval_form(list, (depth - 1) as nat)
        },
    }
}

/// The value of the form `list`, whose elements are evaluated at `depth`. The head
/// is evaluated first and decides: `if` and `cond` are special forms, anything else
/// is a call.
pub open spec fn eval_form(list: Seq<ExprModel>, depth: nat) -> Option<ValModel>
    decreases depth, list.len() + 3,
{
    if list.len() == 0 {
        Some(ValModel::SchemeError)
    } else {
        match eval(list[0], depth) {
            None => None,
            Some(head) => if head == keyword("if"@) {
                eval_if(list, depth)
            } else if head == keyword("cond"@) {
                if list.len() % 2 == 1 {
                    eval_cond(list, 1, depth)
                } else {
                    Some(ValModel::SchemeError)
                }
            } else {
                eval_call(list, seq![head], depth)
            },
        }
    }
}

/// `if`: exactly three operands. The condition is evaluated; a boolean selects the
/// branch that is evaluated, the other is not; a deferred condition defers the whole
/// form; any other condition is an error.
pub open spec fn eval_if(list: Seq<ExprModel>, depth: nat) -> Option<ValModel>
    decreases depth, 1nat,
{
    if list.len() != 4 {
        Some(ValModel::SchemeError)
    } else {
        match eval(list[1], depth) {
            None => None,
            Some(ValModel::Boolean(true)) => eval(list[2], depth),
            Some(ValModel::Boolean(false)) => eval(list[3], depth),
            Some(ValModel::Unbound(_)) => Some(ValModel::Unbound(ExprModel::Tree(list))),
            Some(_) => Some(ValModel::SchemeError),
        }
    }
}

/// `cond` from the pair at `i` on: the first condition that is true selects its
/// result; a false one is skipped; a deferred one defers the whole form; any other
/// condition, or no pair left, is an error.
pub open spec fn eval_cond(list: Seq<ExprModel>, i: nat, depth: nat) -> Option<ValModel>
    decreases depth, list.len() - i + 1,
{
    if i + 1 >= list.len() {
        Some(ValModel::SchemeError)
    } else {
        match eval(list[i as int], depth) {
            None => None,
            Some(ValModel::Boolean(true)) => eval(list[i as int + 1], depth),
            Some(ValModel::Boolean(false)) => eval_cond(list, i + 2, depth),
            Some(ValModel::Unbound(_)) => Some(ValModel::Unbound(ExprModel::Tree(list))),
            Some(_) => Some(ValModel::SchemeError),
        }
    }
}

/// A call, where `vals` holds the values of the elements evaluated so far, the head
/// first. The remaining elements are evaluated from left to right. One that is
/// deferred defers the whole form at once, unless the head is the name `lambda`.
/// When all are evaluated the head is applied to the others.
pub open spec fn eval_call(list: Seq<ExprModel>, vals: Seq<ValModel>, depth: nat) -> Option<
    ValModel,
>
    decreases depth, (if vals.len() < list.len() { list.len() - vals.len() + 2 } else { 2 }),
{
    if vals.len() >= list.len() {
        apply(vals, depth)
    } else {
        match eval(list[vals.len() as int], depth) {
            None => None,
            Some(v) => if v is Unbound && vals.len() > 0 && vals[0] != keyword("lambda"@) {
                Some(ValModel::Unbound(ExprModel::Tree(list)))
            } else {
                eval_call(list, vals.push(v), depth)
            },
        }
    }
}

/// The head `vals[0]` applied to the arguments that follow it. A name is a primitive
/// or is quoted again; a function takes exactly as many arguments as it has
/// parameters, which are substituted into its body in order before the body is
/// evaluated; any other head is an error, as is no head at all.
pub open spec fn apply(vals: Seq<ValModel>, depth: nat) -> Option<ValModel>
    decreases depth, 1nat,
{
    if vals.len() == 0 {
        Some(ValModel::SchemeError)
    } else {
        let args = vals.drop_first();
        match vals[0] {
            ValModel::Unbound(ExprModel::Text(name)) => Some(apply_name(name, args)),
            ValModel::Function(params, body) => if params.len() != args.len() {
                Some(ValModel::SchemeError)
            } else {
                eval(bind_first(body, params, args, params.len()), depth)
            },
            _ => Some(ValModel::SchemeError),
        }
    }
}

/// A value that evaluation reaches at one depth it reaches at every greater depth:
/// the depth decides whether there is a result, never which.
pub proof fn lemma_eval_deeper(e: ExprModel, depth: nat, deeper: nat)
    requires
        depth <= deeper,
        eval(e, depth) is Some,
    ensures
        eval(e, deeper) == eval(e, depth),
    decreases depth, 0nat,
{
    match e {
        ExprModel::Tree(list) => {
            lemma_eval_form_deeper(list, (depth - 1) as nat, (deeper - 1) as nat);
        },
        _ => {},
    }
}

/// The same of a form.
pub proof fn lemma_eval_form_deeper(list: Seq<ExprModel>, depth: nat, deeper: nat)
    requires
        depth <= deeper,
        eval_form(list, depth) is Some,
    ensures
        eval_form(list, deeper) == eval_form(list, depth),
    decreases depth, list.len() + 3,
{
    if list.len() > 0 {
        lemma_eval_deeper(list[0], depth, deeper);
        let head = eval(list[0], depth)->0;
        if head == keyword("if"@) {
            lemma_eval_if_deeper(list, depth, deeper);
        } else if head == keyword("cond"@) {
            if list.len() % 2 == 1 {
                lemma_eval_cond_deeper(list, 1, depth, deeper);
            }
        } else {
            lemma_eval_call_deeper(list, seq![head], depth, deeper);
        }
    }
}

/// The same of an `if` form.
pub proof fn lemma_eval_if_deeper(list: Seq<ExprModel>, depth: nat, deeper: nat)
    requires
        depth <= deeper,
        eval_if(list, depth) is Some,
    ensures
        eval_if(list, deeper) == eval_if(list, depth),
    decreases depth, 1nat,
{
    if list.len() == 4 {
        lemma_eval_deeper(list[1], depth, deeper);
        match eval(list[1], depth) {
            Some(ValModel::Boolean(true)) => {
                lemma_eval_deeper(list[2], depth, deeper);
            },
            Some(ValModel::Boolean(false)) => {
                lemma_eval_deeper(list[3], depth, deeper);
            },
            _ => {},
        }
    }
}

/// The same of a `cond` form from the pair at `i` on.
pub proof fn lemma_eval_cond_deeper(list: Seq<ExprModel>, i: nat, depth: nat, deeper: nat)
    requires
        depth <= deeper,
        eval_cond(list, i, depth) is Some,
    ensures
        eval_cond(list, i, deeper) == eval_cond(list, i, depth),
    decreases depth, list.len() - i + 1,
{
    if i + 1 < list.len() {
        lemma_eval_deeper(list[i as int], depth, deeper);
        match eval(list[i as int], depth) {
            Some(ValModel::Boolean(true)) => {
                lemma_eval_deeper(list[i as int + 1], depth, deeper);
            },
            Some(ValModel::Boolean(false)) => {
                lemma_eval_cond_deeper(list, i + 2, depth, deeper);
            },
            _ => {},
        }
    }
}

/// The same of a call whose first elements are evaluated.
pub proof fn lemma_eval_call_deeper(
    list: Seq<ExprModel>,
    vals: Seq<ValModel>,
    depth: nat,
    deeper: nat,
)
    requires
        depth <= deeper,
        eval_call(list, vals, depth) is Some,
    ensures
        eval_call(list, vals, deeper) == eval_call(list, vals, depth),
    decreases depth, (if vals.len() < list.len() { list.len() - vals.len() + 2 } else { 2 }),
{
    if vals.len() >= list.len() {
        lemma_apply_deeper(vals, depth, deeper);
    } else {
        lemma_eval_deeper(list[vals.len() as int], depth, deeper);
        let v = eval(list[vals.len() as int], depth)->0;
        if !(v is Unbound && vals.len() > 0 && vals[0] != keyword("lambda"@)) {
            lemma_eval_call_deeper(list, vals.push(v), depth, deeper);
        }
    }
}

/// The same of an application.
pub proof fn lemma_apply_deeper(vals: Seq<ValModel>, depth: nat, deeper: nat)
    requires
        depth <= deeper,
        apply(vals, depth) is Some,
    ensures
        apply(vals, deeper) == apply(vals, depth),
    decreases depth, 1nat,
{
    if vals.len() > 0 {
        let args = vals.drop_first();
        match vals[0] {
            ValModel::Function(params, body) => {
                if params.len() == args.len() {
                    lemma_eval_deeper(
                        bind_first(body, params, args, params.len()),
                        depth,
                        deeper,
                    );
                }
            },
            _ => {},
        }
    }
}

/// The model of an evaluation's outcome.
pub open spec fn option_model(r: Option<Val>) -> Option<ValModel> {
    match r {
        Some(v) => Some(v@),
        None => None,
    }
}

/// Whether `v` is the deferred reference to the name `word`.
fn is_keyword(v: &Val, word: &str) -> (b: bool)
    ensures
        b == (v@ == keyword(word@)),
{
    match v {
        Val::Unbound(Expr::Text(s)) => str_equal(s.as_str(), word),
        _ => false,
    }
}

/// The expression that stands for `v`.
fn quote_val(v: &Val) -> (e: Expr)
    ensures
        e@ == quote(v@),
{
    match v {
        Val::Unbound(expr) => expr.clone(),
        other => Expr::Bound(Box::new(other.clone())),
    }
}

/// `+` on `args`.
fn sum_vals(args: Vec<Val>) -> (r: Val)
    requires
        all_wf(args@),
    ensures
        r@ == sum_of(vals_model(args@)),
        r.wf(),
{
    let ghost items = args@;
    let ghost models = vals_model(args@);
    let mut acc = Val::Number(false, 0, 1);
    for val in it: args
        invariant
            it.seq() == items,
            models == vals_model(items),
            all_wf(items),
            acc.wf(),
            acc@ == sum_of(models.take(it.index() as int)),
    {
        proof {
            let k = it.index() as int;
            assert(models.take(k + 1).drop_last() =~= models.take(k));
        }
        acc = acc + val;
    }
    acc
}

/// `*` on `args`.
fn product_vals(args: Vec<Val>) -> (r: Val)
    requires
        all_wf(args@),
    ensures
        r@ == product_of(vals_model(args@)),
        r.wf(),
{
    let ghost items = args@;
    let ghost models = vals_model(args@);
    let mut acc = Val::Number(false, 1, 1);
    for val in it: args
        invariant
            it.seq() == items,
            models == vals_model(items),
            all_wf(items),
            acc.wf(),
            acc@ == product_of(models.take(it.index() as int)),
    {
        proof {
            let k = it.index() as int;
            assert(models.take(k + 1).drop_last() =~= models.take(k));
        }
        acc = acc * val;
    }
    acc
}

/// `-` on `args`.
fn difference_vals(args: Vec<Val>) -> (r: Val)
    requires
        all_wf(args@),
    ensures
        r@ == difference_of(vals_model(args@)),
        r.wf(),
{
    let mut args = args;
    if args.len() == 0 {
        return Val::SchemeError();
    }
    let ghost all = vals_model(args@);
    let first = args.remove(0);
    let ghost items = args@;
    let ghost models = vals_model(args@);
    assert(models =~= all.drop_first());
    match first {
        Val::Number(_, _, _) => {},
        _ => {
            return Val::SchemeError();
        },
    }
    let mut acc = first;
    for val in it: args
        invariant
            it.seq() == items,
            models == vals_model(items),
            all_wf(items),
            acc.wf(),
            acc@ == subtract_from(all[0], models.take(it.index() as int)),
    {
        proof {
            let k = it.index() as int;
            assert(models.take(k + 1).drop_last() =~= models.take(k));
        }
        acc = acc - val;
    }
    acc
}

/// `number=?` on `args`.
fn numbers_equal_vals(args: &Vec<Val>) -> (r: Val)
    ensures
        r@ == numbers_equal(vals_model(args@)),
        r.wf(),
{
    if args.len() != 2 {
        return Val::SchemeError();
    }
    match (&args[0], &args[1]) {
        (Val::Number(neg, n, d), Val::Number(oneg, on, od)) => Val::Boolean(
            *neg == *oneg && *n == *on && *d == *od,
        ),
        _ => Val::SchemeError(),
    }
}

/// `lambda` on `args`.
fn lambda_val(args: &Vec<Val>) -> (r: Val)
    requires
        all_wf(args@),
    ensures
        r@ == lambda_of(vals_model(args@)),
        r.wf(),
{
    if args.len() < 2 {
        return Val::SchemeError();
    }
    match &args[0] {
        Val::Unbound(Expr::Tree(binding_list)) => {
            let mut bindings: Vec<String> = Vec::new();
            let mut i: usize = 0;
            while i < binding_list.list.len()
                invariant
                    args.len() >= 2,
                    args[0]@ == ValModel::Unbound(ExprModel::Tree(binding_list@)),
                    i <= binding_list.list.len(),
                    bindings.len() == i,
                    forall|j: int| 0 <= j < i ==> (#[trigger] binding_list@[j]) is Text,
                    forall|j: int|
                        0 <= j < i ==> (#[trigger] bindings[j])@ == binding_list@[j]->Text_0,
                decreases binding_list.list.len() - i,
            {
                match &binding_list.list[i] {
                    Expr::Text(s) => {
                        bindings.push(s.clone());
                    },
                    _ => {
                        assert(!(binding_list@[i as int] is Text));
                        return Val::SchemeError();
                    },
                }
                i += 1;
            }
            assert(names_view(bindings@) =~= atom_texts(binding_list@));
            Val::Function(bindings, quote_val(&args[1]))
        },
        _ => Val::SchemeError(),
    }
}

/// The call of the unknown name `name` on `args`, quoted again.
fn requote_val(name: String, args: &Vec<Val>) -> (r: Val)
    requires
        all_wf(args@),
    ensures
        r@ == requote(name@, vals_model(args@)),
        r.wf(),
{
    let mut tree: Vec<Expr> = Vec::new();
    tree.push(Expr::Text(name));
    let mut i: usize = 0;
    while i < args.len()
        invariant
            i <= args.len(),
            tree.len() == i + 1,
            tree[0]@ == ExprModel::Text(name@),
            all_wf(args@),
            forall|j: int| 0 <= j < i ==> (#[trigger] tree[j + 1])@ == quote(args[j]@),
        decreases args.len() - i,
    {
        tree.push(quote_val(&args[i]));
        i += 1;
    }
    let pt = ParseTree { list: tree };
    let ghost quoted = seq![ExprModel::Text(name@)] + vals_model(args@).map_values(
        |v: ValModel| quote(v),
    );
    assert forall|j: int| 0 <= j < pt@.len() implies pt@[j] == quoted[j] by {
        if j > 0 {
            assert(pt@[j] == tree[j - 1 + 1]@);
        }
    }
    assert(pt@ =~= quoted);
    assert forall|j: int| 0 <= j < pt@.len() implies (#[trigger] pt@[j]).wf() by {}
    Val::Unbound(Expr::Tree(Box::new(pt)))
}

/// The call of the primitive or unknown name `name` on `args`.
fn apply_named(name: String, args: Vec<Val>) -> (r: Val)
    requires
        all_wf(args@),
    ensures
        r@ == apply_name(name@, vals_model(args@)),
        r.wf(),
{
    if str_equal(name.as_str(), "+") {
        sum_vals(args)
    } else if str_equal(name.as_str(), "-") {
        difference_vals(args)
    } else if str_equal(name.as_str(), "*") {
        product_vals(args)
    } else if str_equal(name.as_str(), "number=?") {
        numbers_equal_vals(&args)
    } else if str_equal(name.as_str(), "lambda") {
        lambda_val(&args)
    } else {
        requote_val(name, &args)
    }
}

/// Applies the head of `vals` to the values that follow it, with evaluation of a
/// function's body nesting at most `depth` deep.
pub fn apply_func(vals: Vec<Val>, depth: usize) -> (r: Option<Val>)
    requires
        all_wf(vals@),
    ensures
        option_model(r) == apply(vals_model(vals@), depth as nat),
        r matches Some(v) ==> v.wf(),
    decreases depth, 1nat,
{
    let mut vals = vals;
    if vals.len() == 0 {
        return Some(Val::SchemeError());
    }
    let ghost all = vals_model(vals@);
    let func = vals.remove(0);
    assert(vals_model(vals@) =~= all.drop_first());
    match func {
        Val::Unbound(Expr::Text(s)) => Some(apply_named(s, vals)),
        Val::Function(bindings, exp) => {
            if bindings.len() != vals.len() {
                return Some(Val::SchemeError());
            }
            let ghost body = exp@;
            let ghost params = names_view(bindings@);
            let ghost args = vals_model(vals@);
            let mut exp = exp;
            let mut i: usize = 0;
            while i < bindings.len()
                invariant
                    i <= bindings.len(),
                    bindings.len() == vals.len(),
                    params == names_view(bindings@),
                    args == vals_model(vals@),
                    all_wf(vals@),
                    exp.wf(),
                    exp@ == bind_first(body, params, args, i as nat),
                decreases bindings.len() - i,
            {
                proof {
                    lemma_bind_wf(exp@, bindings[i as int]@, vals[i as int]@);
                }
                exp = exp.bind_val(&bindings[i], &vals[i]);
                i += 1;
            }
            eval_scheme(&exp, depth)
        },
        _ => Some(Val::SchemeError()),
    }
}

/// Evaluates `ex`, with forms nesting at most `depth` deep; `None` where that does
/// not suffice.
pub fn eval_scheme(ex: &Expr, depth: usize) -> (r: Option<Val>)
    requires
        ex.wf(),
    ensures
        option_model(r) == eval(ex@, depth as nat),
        r matches Some(v) ==> v.wf(),
    decreases depth, 0nat,
{
    match ex {
        Expr::Text(txt) => Some(atom_val(txt)),
        Expr::Bound(v) => Some((**v).clone()),
        Expr::Tree(expr) => {
            if depth == 0 {
                return None;
            }
            let d = depth - 1;
            let n = expr.list.len();
            if n == 0 {
                return Some(Val::SchemeError());
            }
            let ghost list = expr@;
            let ghost goal = eval(ex@, depth as nat);
            assert(goal == eval_form(list, d as nat));
            assert forall|j: int| 0 <= j < n implies (#[trigger] expr.list[j]).wf() by {
                assert(list[j].wf());
            }
            let head = match eval_scheme(&expr.list[0], d) {
                None => {
                    return None;
                },
                Some(h) => h,
            };
            if is_keyword(&head, "if") {
                if n != 4 {
                    return Some(Val::SchemeError());
                }
                match eval_scheme(&expr.list[1], d) {
                    None => None,
                    Some(Val::Boolean(true)) => eval_scheme(&expr.list[2], d),
                    Some(Val::Boolean(false)) => eval_scheme(&expr.list[3], d),
                    Some(Val::Unbound(_)) => Some(Val::Unbound(ex.clone())),
                    Some(_) => Some(Val::SchemeError()),
                }
            } else if is_keyword(&head, "cond") {
                if n % 2 != 1 {
                    return Some(Val::SchemeError());
                }
                let mut index: usize = 1;
                while index < n - 1
                    invariant
                        d + 1 == depth,
                        0 < n,
                        index <= n,
                        n == expr.list.len(),
                        list == expr@,
                        *ex == Expr::Tree(*expr),
                        forall|j: int| 0 <= j < n ==> (#[trigger] expr.list[j]).wf(),
                        ex.wf(),
                        goal == eval_cond(list, index as nat, d as nat),
                        goal == eval(ex@, depth as nat),
                    decreases n - index,
                {
                    match eval_scheme(&expr.list[index], d) {
                        None => {
                            return None;
                        },
                        Some(Val::Boolean(true)) => {
                            return eval_scheme(&expr.list[index + 1], d);
                        },
                        Some(Val::Boolean(false)) => {},
                        Some(Val::Unbound(_)) => {
                            return Some(Val::Unbound(ex.clone()));
                        },
                        Some(_) => {
                            return Some(Val::SchemeError());
                        },
                    }
                    index += 2;
                }
                Some(Val::SchemeError())
            } else {
                let lambda_head = is_keyword(&head, "lambda");
                let ghost first = head@;
                let mut vals: Vec<Val> = Vec::new();
                vals.push(head);
                assert(vals_model(vals@) =~= seq![first]);
                let mut i: usize = 1;
                while i < n
                    invariant
                        d + 1 == depth,
                        1 <= i <= n,
                        n == expr.list.len(),
                        list == expr@,
                        *ex == Expr::Tree(*expr),
                        forall|j: int| 0 <= j < n ==> (#[trigger] expr.list[j]).wf(),
                        ex.wf(),
                        vals.len() == i,
                        all_wf(vals@),
                        vals[0]@ == first,
                        lambda_head == (first == keyword("lambda"@)),
                        goal == eval_call(list, vals_model(vals@), d as nat),
                        goal == eval(ex@, depth as nat),
                    decreases n - i,
                {
                    let ghost before = vals_model(vals@);
                    match eval_scheme(&expr.list[i], d) {
                        None => {
                            return None;
                        },
                        Some(v) => {
                            let deferred = match &v {
                                Val::Unbound(_) => true,
                                _ => false,
                            };
                            if deferred && !lambda_head {
                                return Some(Val::Unbound(ex.clone()));
                            }
                            proof {
                                assert(vals_model(vals@.push(v)) =~= before.push(v@));
                            }
                            vals.push(v);
                        },
                    }
                    i += 1;
                }
                apply_func(vals, d)
            }
        },
    }
}

} // verus!
