//! Substitution: the evaluator's only binding mechanism.

use vstd::prelude::*;
use crate::syntax::{
    lemma_element_is_smaller,
    names_view,
    Expr,
    ExprModel,
    ParseTree,
    Val,
    ValModel,
};

verus! {

impl ExprModel {
    /// The expression with every free occurrence of `name` replaced by a slot holding
    /// `v`. A function value whose parameters include `name` shadows it and is left
    /// untouched; in any other function value the body is rewritten.
    pub open spec fn bind(self, name: Seq<char>, v: ValModel) -> ExprModel
        decreases self,
    {
        match self {
            ExprModel::Text(s) => if s == name {
                ExprModel::Bound(Box::new(v))
            } else {
                self
            },
            ExprModel::Bound(b) => match *b {
                ValModel::Function(params, body) => if params.contains(name) {
                    self
                } else {
                    ExprModel::Bound(Box::new(ValModel::Function(params, body.bind(name, v))))
                },
                _ => self,
            },
            ExprModel::Tree(list) => ExprModel::Tree(
                Seq::new(
                    list.len(),
                    |i: int|
                        if 0 <= i < list.len() {
                            list[i].bind(name, v)
                        } else {
                            self
                        },
                ),
            ),
        }
    }

    /// `name` occurs free in the expression: as an atom, outside every function value
    /// that has it as a parameter.
    pub open spec fn mentions(self, name: Seq<char>) -> bool
        decreases self,
    {
        match self {
            ExprModel::Text(s) => s == name,
            ExprModel::Bound(b) => match *b {
                ValModel::Function(params, body) => !params.contains(name) && body.mentions(name),
                _ => false,
            },
            ExprModel::Tree(list) => exists|i: int|
                0 <= i < list.len() && (#[trigger] list[i]).mentions(name),
        }
    }
}

/// `body` after the first `n` of `names` were substituted, one after the other and
/// in order, each by the value at its position.
pub open spec fn bind_first(
    body: ExprModel,
    names: Seq<Seq<char>>,
    values: Seq<ValModel>,
    n: nat,
) -> ExprModel
    decreases n,
{
    if n == 0 {
        body
    } else {
        bind_first(body, names, values, (n - 1) as nat).bind(names[n - 1], values[n - 1])
    }
}

/// Substituting a name that does not occur free in an expression leaves the
/// expression unchanged, and substituting one that does changes it.
pub proof fn lemma_bind_changes_iff_mentioned(e: ExprModel, name: Seq<char>, v: ValModel)
    ensures
        e.bind(name, v) == e <==> !e.mentions(name),
    decreases e,
{
    match e {
        ExprModel::Text(s) => {},
        ExprModel::Bound(b) => match *b {
            ValModel::Function(params, body) => {
                lemma_bind_changes_iff_mentioned(body, name, v);
            },
            _ => {},
        },
        ExprModel::Tree(list) => {
            let bound = e.bind(name, v)->Tree_0;
            assert forall|i: int| 0 <= i < list.len() implies (bound[i] == list[i] <==> !(
            #[trigger] list[i]).mentions(name)) by {
                lemma_bind_changes_iff_mentioned(list[i], name, v);
            }
            if !e.mentions(name) {
                assert(bound =~= list);
            }
        },
    }
}

/// Substitution removes the name: once `name` was replaced by a value in which it
/// does not occur free, it does not occur free in the expression.
pub proof fn lemma_bind_removes_name(e: ExprModel, name: Seq<char>, v: ValModel)
    requires
        !ExprModel::Bound(Box::new(v)).mentions(name),
    ensures
        !e.bind(name, v).mentions(name),
    decreases e,
{
    match e {
        ExprModel::Text(s) => {},
        ExprModel::Bound(b) => match *b {
            ValModel::Function(params, body) => {
                lemma_bind_removes_name(body, name, v);
            },
            _ => {},
        },
        ExprModel::Tree(list) => {
            let bound = e.bind(name, v)->Tree_0;
            assert forall|i: int| 0 <= i < bound.len() implies !(#[trigger] bound[i]).mentions(
                name,
            ) by {
                lemma_bind_removes_name(list[i], name, v);
            }
        },
    }
}

/// Substituting a well-formed value into a well-formed expression gives a
/// well-formed expression.
pub proof fn lemma_bind_wf(e: ExprModel, name: Seq<char>, v: ValModel)
    requires
        e.wf(),
        v.wf(),
    ensures
        e.bind(name, v).wf(),
    decreases e,
{
    reveal_with_fuel(ExprModel::wf, 2);
    reveal_with_fuel(ValModel::wf, 2);
    match e {
        ExprModel::Text(s) => {},
        ExprModel::Bound(b) => match *b {
            ValModel::Function(params, body) => {
                lemma_bind_wf(body, name, v);
            },
            _ => {},
        },
        ExprModel::Tree(list) => {
            let bound = e.bind(name, v)->Tree_0;
            assert forall|i: int| 0 <= i < bound.len() implies (#[trigger] bound[i]).wf() by {
                lemma_bind_wf(list[i], name, v);
            }
        },
    }
}

/// Whether `name` is one of `names`.
pub fn has_name(names: &Vec<String>, name: &String) -> (found: bool)
    ensures
        found == names_view(names@).contains(name@),
{
    let mut i: usize = 0;
    while i < names.len()
        invariant
            i <= names.len(),
            forall|j: int| 0 <= j < i ==> names_view(names@)[j] != name@,
        decreases names.len() - i,
    {
        if names[i] == *name {
            assert(names_view(names@)[i as int] == name@);
            return true;
        }
        i += 1;
    }
    false
}

impl Expr {
    /// Whether `name` occurs free in the expression.
    pub fn mentions(&self, name: &String) -> (found: bool)
        ensures
            found == self@.mentions(name@),
        decreases self,
    {
        match self {
            Expr::Text(s) => *s == *name,
            Expr::Bound(b) => match &**b {
                Val::Function(bindings, body) => !has_name(bindings, name) && body.mentions(name),
                _ => false,
            },
            Expr::Tree(pt) => {
                let mut i: usize = 0;
                while i < pt.list.len()
                    invariant
                        *self == Expr::Tree(*pt),
                        i <= pt.list.len(),
                        forall|j: int| 0 <= j < i ==> !(#[trigger] pt@[j]).mentions(name@),
                    decreases pt.list.len() - i,
                {
                    proof {
                        lemma_element_is_smaller(self, i as int);
                    }
                    if pt.list[i].mentions(name) {
                        assert((self@->Tree_0)[i as int].mentions(name@));
                        return true;
                    }
                    i += 1;
                }
                assert(self@->Tree_0 == pt@);
                false
            },
        }
    }

    /// Substitutes `v` for every free occurrence of `replace`, giving a new tree.
    pub fn bind_val(self, replace: &String, v: &Val) -> (r: Expr)
        ensures
            r@ == self@.bind(replace@, v@),
        decreases self,
    {
        match self {
            Expr::Text(s) => if s == *replace {
                Expr::Bound(Box::new(v.clone()))
            } else {
                Expr::Text(s)
            },
            Expr::Bound(b) => match *b {
                Val::Function(bindings, expr) => {
                    if has_name(&bindings, replace) {
                        Expr::Bound(Box::new(Val::Function(bindings, expr)))
                    } else {
                        Expr::Bound(Box::new(Val::Function(bindings, expr.bind_val(replace, v))))
                    }
                },
                other => Expr::Bound(Box::new(other)),
            },
            Expr::Tree(pt) => {
                let ghost items = pt.list@;
                let ParseTree { list } = *pt;
                let mut ret = ParseTree { list: Vec::new() };
                for lexp in it: list
                    invariant
                        self == Expr::Tree(pt),
                        items == pt.list@,
                        it.seq() == items,
                        ret.list.len() == it.index(),
                        forall|j: int|
                            0 <= j < it.index() ==> (#[trigger] ret.list[j])@ == items[j]@.bind(
                                replace@,
                                v@,
                            ),
                {
                    proof {
                        lemma_element_is_smaller(&self, it.index() as int);
                    }
                    ret.list.push(lexp.bind_val(replace, v));
                }
                assert(ret@ =~= self@.bind(replace@, v@)->Tree_0);
                Expr::Tree(Box::new(ret))
            },
        }
    }
}

} // verus!
