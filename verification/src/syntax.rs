//! Expression trees and values, with their mathematical models.

use vstd::prelude::*;

verus! {

/// The mathematical model of an expression.
pub enum ExprModel {
    /// An atom, not yet classified as numeral or name.
    Text(Seq<char>),
    /// A slot that already holds a value.
    Bound(Box<ValModel>),
    /// A parenthesised form.
    Tree(Seq<ExprModel>),
}

/// The mathematical model of a value.
pub enum ValModel {
    /// An exact fraction: sign (true when negative), numerator, denominator.
    Number(bool, u32, u32),
    /// A truth value.
    Boolean(bool),
    /// A deferred expression.
    Unbound(ExprModel),
    /// A function: parameter names and body.
    Function(Seq<Seq<char>>, ExprModel),
    /// A terminal failure.
    SchemeError,
}

/// A value: what an expression evaluates to.
#[derive(Debug, PartialEq)]
pub enum Val {
    /// An exact fraction: sign (true when negative), numerator, denominator.
    Number(bool, u32, u32),
    /// A truth value.
    Boolean(bool),
    /// A deferred expression: it mentions a name that had no binding yet.
    Unbound(Expr),
    /// A function: parameter names and body, with no captured environment.
    Function(Vec<String>, Expr),
    /// A terminal failure.
    SchemeError(),
}

/// An expression tree.
#[derive(Debug, PartialEq)]
pub enum Expr {
    /// An atom, not yet classified as numeral or name.
    Text(String),
    /// A slot that already holds a value; only substitution makes one.
    Bound(Box<Val>),
    /// A parenthesised form.
    Tree(Box<ParseTree>),
}

/// A parenthesised form.
#[derive(Debug, PartialEq)]
pub struct ParseTree {
    /// The elements of the form, in order.
    pub list: Vec<Expr>,
}

impl ValModel {
    /// Every number in the value, however deeply nested, has a positive denominator.
    pub open spec fn wf(self) -> bool
        decreases self,
    {
        match self {
            ValModel::Number(_, _, d) => d > 0,
            ValModel::Boolean(_) => true,
            ValModel::Unbound(e) => e.wf(),
            ValModel::Function(_, body) => body.wf(),
            ValModel::SchemeError => true,
        }
    }
}

impl ExprModel {
    /// Every value bound in the expression is well formed.
    pub open spec fn wf(self) -> bool
        decreases self,
    {
        match self {
            ExprModel::Text(_) => true,
            ExprModel::Bound(v) => v.wf(),
            ExprModel::Tree(list) => forall|i: int| 0 <= i < list.len() ==> (#[trigger] list[i]).wf(),
        }
    }
}

/// The names of a parameter list, as sequences of characters.
pub open spec fn names_view(names: Seq<String>) -> Seq<Seq<char>> {
    Seq::new(names.len(), |i: int| names[i]@)
}

/// The model of a value.
pub open spec fn val_model(v: Val) -> ValModel
    decreases v,
{
    match v {
        Val::Number(neg, n, d) => ValModel::Number(neg, n, d),
        Val::Boolean(b) => ValModel::Boolean(b),
        Val::Unbound(e) => ValModel::Unbound(expr_model(e)),
        Val::Function(params, body) => ValModel::Function(names_view(params@), expr_model(body)),
        Val::SchemeError() => ValModel::SchemeError,
    }
}

/// The model of an expression.
pub open spec fn expr_model(e: Expr) -> ExprModel
    decreases e,
{
    match e {
        Expr::Text(s) => ExprModel::Text(s@),
        Expr::Bound(v) => ExprModel::Bound(Box::new(val_model(*v))),
        Expr::Tree(pt) => ExprModel::Tree(exprs_model(pt.list@)),
    }
}

/// The models of a sequence of expressions, element by element.
pub open spec fn exprs_model(list: Seq<Expr>) -> Seq<ExprModel>
    decreases list,
{
    Seq::new(
        list.len(),
        |i: int|
            if 0 <= i < list.len() {
                expr_model(list[i])
            } else {
                ExprModel::Tree(Seq::empty())
            },
    )
}

/// The models of a sequence of values.
pub open spec fn vals_model(vals: Seq<Val>) -> Seq<ValModel> {
    vals.map_values(|v: Val| v@)
}

/// All of `vals` are well formed.
pub open spec fn all_wf(vals: Seq<Val>) -> bool {
    forall|i: int| 0 <= i < vals.len() ==> (#[trigger] vals[i]).wf()
}

impl View for Val {
    type V = ValModel;

    open spec fn view(&self) -> ValModel {
        val_model(*self)
    }
}

impl View for Expr {
    type V = ExprModel;

    open spec fn view(&self) -> ExprModel {
        expr_model(*self)
    }
}

impl View for ParseTree {
    type V = Seq<ExprModel>;

    open spec fn view(&self) -> Seq<ExprModel> {
        exprs_model(self.list@)
    }
}

impl Val {
    /// Every number in the value has a positive denominator.
    pub open spec fn wf(&self) -> bool {
        self@.wf()
    }
}

impl Expr {
    /// Every value bound in the expression is well formed.
    pub open spec fn wf(&self) -> bool {
        self@.wf()
    }
}

/// An element of a form is smaller than the form: recursion into it ends.
pub proof fn lemma_element_is_smaller(e: &Expr, i: int)
    requires
        e is Tree,
        0 <= i < e->Tree_0.list.len(),
    ensures
        decreases_to!(e => e->Tree_0.list[i]),
{
}

impl Clone for Val {
    /// A copy with the same model.
    fn clone(&self) -> (r: Self)
        ensures
            r@ == self@,
        decreases self,
    {
        match self {
            Val::Number(neg, n, d) => Val::Number(*neg, *n, *d),
            Val::Boolean(b) => Val::Boolean(*b),
            Val::Unbound(e) => Val::Unbound(e.clone()),
            Val::Function(params, body) => {
                let mut names: Vec<String> = Vec::new();
                let mut i: usize = 0;
                while i < params.len()
                    invariant
                        i <= params.len(),
                        names.len() == i,
                        forall|j: int| 0 <= j < i ==> names[j]@ == params[j]@,
                    decreases params.len() - i,
                {
                    names.push(params[i].clone());
                    i += 1;
                }
                assert(names_view(names@) =~= names_view(params@));
                Val::Function(names, body.clone())
            },
            Val::SchemeError() => Val::SchemeError(),
        }
    }
}

impl Clone for Expr {
    /// A copy with the same model.
    fn clone(&self) -> (r: Self)
        ensures
            r@ == self@,
        decreases self,
    {
        match self {
            Expr::Text(s) => Expr::Text(s.clone()),
            Expr::Bound(v) => Expr::Bound(Box::new((**v).clone())),
            Expr::Tree(pt) => {
                let mut ret = ParseTree { list: Vec::new() };
                let mut i: usize = 0;
                while i < pt.list.len()
                    invariant
                        *self == Expr::Tree(*pt),
                        i <= pt.list.len(),
                        ret.list.len() == i,
                        forall|j: int| 0 <= j < i ==> ret.list[j]@ == pt.list[j]@,
                    decreases pt.list.len() - i,
                {
                    proof {
                        lemma_element_is_smaller(self, i as int);
                    }
                    ret.list.push(pt.list[i].clone());
                    i += 1;
                }
                assert(ret@ =~= pt@);
                Expr::Tree(Box::new(ret))
            },
        }
    }
}

} // verus!
