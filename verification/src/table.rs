//! The definition table.

use vstd::prelude::*;
use crate::bind::{bind_first, lemma_bind_changes_iff_mentioned, lemma_bind_wf};
use crate::syntax::{names_view, vals_model, Expr, ExprModel, Val, ValModel};

verus! {

/// The model of the definition table: the defined names in the order in which they
/// were first defined, and at the same positions their values.
pub struct Table {
    /// The defined names.
    pub names: Seq<Seq<char>>,
    /// The value of each name, at the name's position.
    pub values: Seq<ValModel>,
}

impl Table {
    /// The table without definitions.
    pub open spec fn empty() -> Table {
        Table { names: Seq::empty(), values: Seq::empty() }
    }

    /// Each name has one value, no name occurs twice, and every value is well formed.
    pub open spec fn wf(self) -> bool {
        &&& self.names.len() == self.values.len()
        &&& self.names.no_duplicates()
        &&& forall|i: int| 0 <= i < self.values.len() ==> (#[trigger] self.values[i]).wf()
    }

    /// The table after `name` was defined as `value`: a name that was defined before
    /// keeps its place and gets the new value, a new name comes last.
    pub open spec fn define(self, name: Seq<char>, value: ValModel) -> Table {
        if self.names.contains(name) {
            Table {
                names: self.names,
                values: self.values.update(self.names.index_of(name), value),
            }
        } else {
            Table { names: self.names.push(name), values: self.values.push(value) }
        }
    }

    /// No defined name occurs free in `exp`: the definitions cannot bring it further.
    pub open spec fn stuck(self, exp: ExprModel) -> bool {
        forall|i: int| 0 <= i < self.names.len() ==> !exp.mentions(#[trigger] self.names[i])
    }

    /// `exp` after every definition was substituted into it, in the table's order.
    pub open spec fn substitute(self, exp: ExprModel) -> ExprModel {
        bind_first(exp, self.names, self.values, self.names.len())
    }

    /// The value that `name` is defined as, if it is defined.
    pub open spec fn lookup(self, name: Seq<char>) -> Option<ValModel> {
        if self.names.contains(name) {
            Some(self.values[self.names.index_of(name)])
        } else {
            None
        }
    }
}

/// Defining a name keeps the table well formed and acts as on a map: the name then
/// has the new value, and every other name has what it had. The names defined
/// before keep their places.
pub proof fn lemma_define_is_map_update(
    table: Table,
    name: Seq<char>,
    value: ValModel,
    other: Seq<char>,
)
    requires
        table.wf(),
        value.wf(),
    ensures
        table.define(name, value).wf(),
        table.define(name, value).lookup(name) == Some(value),
        other != name ==> table.define(name, value).lookup(other) == table.lookup(other),
        table.names.is_prefix_of(table.define(name, value).names),
{
    let after = table.define(name, value);
    if table.names.contains(name) {
        if other != name && table.names.contains(other) {
            assert(table.names.index_of(other) != table.names.index_of(name));
        }
    } else {
        let n = table.names.len() as int;
        assert(after.names[n] == name);
        if other != name && table.names.contains(other) {
            let j = table.names.index_of(other);
            assert(after.names[j] == other);
        }
    }
}

/// Where no defined name occurs free in an expression, substituting the definitions
/// leaves it unchanged.
pub proof fn lemma_stuck_substitute(table: Table, exp: ExprModel)
    requires
        table.stuck(exp),
    ensures
        table.substitute(exp) == exp,
{
    lemma_stuck_bind_first(table, exp, table.names.len());
}

/// The same of the first `n` definitions.
proof fn lemma_stuck_bind_first(table: Table, exp: ExprModel, n: nat)
    requires
        table.stuck(exp),
        n <= table.names.len(),
    ensures
        bind_first(exp, table.names, table.values, n) == exp,
    decreases n,
{
    if n > 0 {
        lemma_stuck_bind_first(table, exp, (n - 1) as nat);
        lemma_bind_changes_iff_mentioned(exp, table.names[n - 1], table.values[n - 1]);
    }
}

/// Substituting well-formed definitions into a well-formed expression gives a
/// well-formed expression.
pub proof fn lemma_bind_first_wf(exp: ExprModel, table: Table, n: nat)
    requires
        exp.wf(),
        table.wf(),
        n <= table.names.len(),
    ensures
        bind_first(exp, table.names, table.values, n).wf(),
    decreases n,
{
    if n > 0 {
        lemma_bind_first_wf(exp, table, (n - 1) as nat);
        lemma_bind_wf(
            bind_first(exp, table.names, table.values, (n - 1) as nat),
            table.names[n - 1],
            table.values[n - 1],
        );
    }
}

/// The definition table: a value for each defined name, names in the order in which
/// they were first defined.
pub struct Definitions {
    names: Vec<String>,
    values: Vec<Val>,
}

impl View for Definitions {
    type V = Table;

    closed spec fn view(&self) -> Table {
        Table { names: names_view(self.names@), values: vals_model(self.values@) }
    }
}

impl Definitions {
    /// The table's invariant.
    pub open spec fn wf(&self) -> bool {
        self@.wf()
    }

    /// A table without definitions.
    pub fn new() -> (table: Definitions)
        ensures
            table@ == Table::empty(),
            table.wf(),
    {
        let table = Definitions { names: Vec::new(), values: Vec::new() };
        assert(table@.names =~= Seq::empty());
        assert(table@.values =~= Seq::empty());
        table
    }

    /// The number of defined names.
    pub fn len(&self) -> (n: usize)
        ensures
            n == self@.names.len(),
    {
        self.names.len()
    }

    /// Defines `name` as `value`, in place of an earlier definition of `name`.
    pub fn insert(&mut self, name: String, value: Val)
        requires
            old(self).wf(),
            value.wf(),
        ensures
            final(self)@ == old(self)@.define(name@, value@),
            final(self).wf(),
    {
        let ghost before = self@;
        let mut i: usize = 0;
        while i < self.names.len()
            invariant
                self@ == before,
                before == old(self)@,
                before.wf(),
                value.wf(),
                i <= self.names.len(),
                forall|j: int| 0 <= j < i ==> before.names[j] != name@,
            decreases self.names.len() - i,
        {
            if self.names[i] == name {
                assert(before.names[i as int] == name@);
                self.values.set(i, value);
                assert(self@.values =~= before.values.update(i as int, value@));
                return;
            }
            i += 1;
        }
        self.names.push(name);
        self.values.push(value);
        assert(self@.names =~= before.names.push(name@));
        assert(self@.values =~= before.values.push(value@));
    }

    /// Whether some defined name occurs free in `exp`.
    pub fn mentions_any(&self, exp: &Expr) -> (found: bool)
        ensures
            found == !self@.stuck(exp@),
    {
        let mut i: usize = 0;
        while i < self.names.len()
            invariant
                i <= self.names.len(),
                forall|j: int| 0 <= j < i ==> !exp@.mentions(#[trigger] self@.names[j]),
            decreases self.names.len() - i,
        {
            if exp.mentions(&self.names[i]) {
                assert(exp@.mentions(self@.names[i as int]));
                return true;
            }
            i += 1;
        }
        false
    }

    /// Substitutes every definition into `exp`, in the table's order.
    pub fn substitute(&self, exp: Expr) -> (r: Expr)
        requires
            self.wf(),
            exp.wf(),
        ensures
            r@ == self@.substitute(exp@),
            r.wf(),
    {
        let ghost start = exp@;
        let mut exp = exp;
        let mut i: usize = 0;
        while i < self.names.len()
            invariant
                self.wf(),
                start.wf(),
                i <= self.names.len(),
                exp@ == bind_first(start, self@.names, self@.values, i as nat),
            decreases self.names.len() - i,
        {
            exp = exp.bind_val(&self.names[i], &self.values[i]);
            i += 1;
        }
        proof {
            lemma_bind_first_wf(start, self@, self@.names.len());
        }
        exp
    }
}

} // verus!
