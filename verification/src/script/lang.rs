//! The syntax tree of the language, and how each node is evaluated.

use vstd::prelude::*;
use crate::script::runtime::{
    bound, value_view, Context, Processable, Runtime, Value, ValueView,
};

verus! {

/// A literal.
#[derive(Debug)]
pub enum Lit {
    /// A whole number.
    Int(i64),
    /// A text.
    Str(String),
    /// A truth value.
    Bool(bool),
}

/// An operator between two operands.
#[derive(Clone, Copy, Debug, PartialEq, Eq, Structural)]
pub enum BinOp {
    Add,
    Sub,
    Mul,
    Div,
}

/// Two operands and the operator between them.
#[derive(Debug)]
pub struct ExprBinary {
    /// The operand on the left.
    pub left: Box<Expr>,
    /// The operand on the right.
    pub right: Box<Expr>,
    /// The operator.
    pub op: BinOp,
}

/// A call: what is called, and the arguments.
#[derive(Debug)]
pub struct ExprCall {
    /// The callee.
    pub func: Box<Expr>,
    /// The arguments.
    pub args: Vec<Expr>,
}

/// An expression.
#[derive(Debug)]
pub enum Expr {
    /// An operation on two operands.
    Binary(ExprBinary),
    /// A call.
    Call(ExprCall),
    /// The name of a variable.
    Ident(String),
    /// A literal.
    Lit(Lit),
}

/// The binding of a variable to the value of an expression.
#[derive(Debug)]
pub struct ItemLet {
    /// The name of the variable.
    pub ident: String,
    /// The expression.
    pub expr: Expr,
}

/// One item of a script.
#[derive(Debug)]
pub enum Item {
    /// A binding.
    Let(ItemLet),
    /// An expression.
    Expr(Expr),
}

/// A script: items that are run in order.
#[derive(Debug)]
pub struct Script {
    /// The items.
    pub items: Vec<Item>,
}

/// The value of a literal.
pub open spec fn lit_value(lit: Lit) -> ValueView {
    match lit {
        Lit::Int(i) => ValueView::Number(i),
        Lit::Str(s) => ValueView::String(s@),
        Lit::Bool(b) => ValueView::Boolean(b),
    }
}

/// The value of an operator applied to two values.
pub open spec fn applied(op: BinOp, left: ValueView, right: ValueView) -> Option<ValueView> {
    match op {
        BinOp::Add => left.plus(right),
        BinOp::Sub => left.minus(right),
        BinOp::Mul => left.times(right),
        BinOp::Div => left.over(right),
    }
}

/// The value of an expression where the given bindings are in sight. A
/// variable has the value of its last binding. An operation has a value
/// where both operands have one and the operator applies to them. No
/// value can be called, so a call has no value.
pub open spec fn expr_value(e: Expr, scope: Seq<(Seq<char>, ValueView)>) -> Option<ValueView>
    decreases e,
{
    match e {
        Expr::Lit(lit) => Some(lit_value(lit)),
        Expr::Ident(name) => bound(scope, name@),
        Expr::Call(_) => None,
        Expr::Binary(b) => match expr_value(*b.left, scope) {
            None => None,
            Some(left) => match expr_value(*b.right, scope) {
                None => None,
                Some(right) => applied(b.op, left, right),
            },
        },
    }
}

/// The bindings that an item adds: a `let` whose expression has a value
/// binds its variable to it.
pub open spec fn item_bindings(item: Item, scope: Seq<(Seq<char>, ValueView)>) -> Seq<
    (Seq<char>, ValueView),
> {
    match item {
        Item::Let(l) => match expr_value(l.expr, scope) {
            Some(v) => seq![(l.ident@, v)],
            None => Seq::empty(),
        },
        Item::Expr(_) => Seq::empty(),
    }
}

/// The bindings that the first `k` items of a script add, each item
/// seeing those of the items before it.
pub open spec fn script_bindings(
    items: Seq<Item>,
    k: nat,
    scope: Seq<(Seq<char>, ValueView)>,
) -> Seq<(Seq<char>, ValueView)>
    decreases k,
{
    if k == 0 || k > items.len() {
        Seq::empty()
    } else {
        let before = script_bindings(items, (k - 1) as nat, scope);
        before + item_bindings(items[k - 1], scope + before)
    }
}

impl Expr {
    /// A call of `func` with `args`.
    pub fn new_call(func: Box<Expr>, args: Vec<Expr>) -> (out: Expr)
        ensures
            out == Expr::Call(ExprCall { func, args }),
    {
        Expr::Call(ExprCall { func, args })
    }

    /// Evaluates the expression in a scope.
    pub fn eval(&self, ctx: &Context) -> (out: Option<Value>)
        ensures
            value_view(out) == expr_value(*self, ctx.scope()),
        decreases self,
    {
        match self {
            Expr::Lit(lit) => Some(
                match lit {
                    Lit::Int(i) => Value::Number(*i),
                    Lit::Str(s) => Value::String(s.clone()),
                    Lit::Bool(b) => Value::Boolean(*b),
                },
            ),
            Expr::Ident(name) => {
                proof {
                    ctx.lemma_scope(name@);
                }
                match ctx.get(name.as_str()) {
                    Some(v) => Some(v.copy()),
                    None => None,
                }
            },
            Expr::Call(call) => None,
            Expr::Binary(b) => {
                let left = match b.left.eval(ctx) {
                    Some(v) => v,
                    None => {
                        return None;
                    },
                };
                let right = match b.right.eval(ctx) {
                    Some(v) => v,
                    None => {
                        return None;
                    },
                };
                match b.op {
                    BinOp::Add => left.add(right),
                    BinOp::Sub => left.sub(right),
                    BinOp::Mul => left.mul(right),
                    BinOp::Div => left.div(right),
                }
            },
        }
    }
}

impl ExprBinary {
    /// The operation `left op right`.
    pub fn new(left: Expr, op: BinOp, right: Expr) -> (out: ExprBinary)
        ensures
            *out.left == left,
            *out.right == right,
            out.op == op,
    {
        ExprBinary { left: Box::new(left), right: Box::new(right), op }
    }
}

impl Item {
    /// The binding of `ident` to the value of `expr`.
    pub fn new_let(ident: String, expr: Expr) -> (out: Item)
        ensures
            out == Item::Let(ItemLet { ident, expr }),
    {
        Item::Let(ItemLet { ident, expr })
    }
}

impl Processable for Lit {
    open spec fn result(&self, scope: Seq<(Seq<char>, ValueView)>) -> Option<ValueView> {
        Some(lit_value(*self))
    }

    open spec fn bindings(&self, scope: Seq<(Seq<char>, ValueView)>) -> Seq<(Seq<char>, ValueView)> {
        Seq::empty()
    }

    fn process(&self, runtime: &mut Runtime) -> (out: Option<Value>) {
        assert(runtime.ctx().own() + Seq::<(Seq<char>, ValueView)>::empty() =~= runtime.ctx().own());
        Some(
            match self {
                Lit::Int(i) => Value::Number(*i),
                Lit::Str(s) => Value::String(s.clone()),
                Lit::Bool(b) => Value::Boolean(*b),
            },
        )
    }
}

impl Processable for Expr {
    open spec fn result(&self, scope: Seq<(Seq<char>, ValueView)>) -> Option<ValueView> {
        expr_value(*self, scope)
    }

    open spec fn bindings(&self, scope: Seq<(Seq<char>, ValueView)>) -> Seq<(Seq<char>, ValueView)> {
        Seq::empty()
    }

    fn process(&self, runtime: &mut Runtime) -> (out: Option<Value>) {
        assert(runtime.ctx().own() + Seq::<(Seq<char>, ValueView)>::empty() =~= runtime.ctx().own());
        self.eval(runtime.ctx())
    }
}

impl Processable for ExprBinary {
    open spec fn result(&self, scope: Seq<(Seq<char>, ValueView)>) -> Option<ValueView> {
        match expr_value(*self.left, scope) {
            None => None,
            Some(left) => match expr_value(*self.right, scope) {
                None => None,
                Some(right) => applied(self.op, left, right),
            },
        }
    }

    open spec fn bindings(&self, scope: Seq<(Seq<char>, ValueView)>) -> Seq<(Seq<char>, ValueView)> {
        Seq::empty()
    }

    fn process(&self, runtime: &mut Runtime) -> (out: Option<Value>) {
        assert(runtime.ctx().own() + Seq::<(Seq<char>, ValueView)>::empty() =~= runtime.ctx().own());
        let left = match self.left.eval(runtime.ctx()) {
            Some(v) => v,
            None => {
                return None;
            },
        };
        let right = match self.right.eval(runtime.ctx()) {
            Some(v) => v,
            None => {
                return None;
            },
        };
        match self.op {
            BinOp::Add => left.add(right),
            BinOp::Sub => left.sub(right),
            BinOp::Mul => left.mul(right),
            BinOp::Div => left.div(right),
        }
    }
}

impl Processable for ExprCall {
    open spec fn result(&self, scope: Seq<(Seq<char>, ValueView)>) -> Option<ValueView> {
        None
    }

    open spec fn bindings(&self, scope: Seq<(Seq<char>, ValueView)>) -> Seq<(Seq<char>, ValueView)> {
        Seq::empty()
    }

    /// Evaluates the callee. No value of the language can be called, so
    /// the call has no value whatever the callee is.
    fn process(&self, runtime: &mut Runtime) -> (out: Option<Value>) {
        assert(runtime.ctx().own() + Seq::<(Seq<char>, ValueView)>::empty() =~= runtime.ctx().own());
        let callee = self.func.eval(runtime.ctx());
        None
    }
}

impl Processable for ItemLet {
    open spec fn result(&self, scope: Seq<(Seq<char>, ValueView)>) -> Option<ValueView> {
        None
    }

    open spec fn bindings(&self, scope: Seq<(Seq<char>, ValueView)>) -> Seq<(Seq<char>, ValueView)> {
        match expr_value(self.expr, scope) {
            Some(v) => seq![(self.ident@, v)],
            None => Seq::empty(),
        }
    }

    fn process(&self, runtime: &mut Runtime) -> (out: Option<Value>) {
        match self.expr.eval(runtime.ctx()) {
            Some(v) => {
                let ghost own = runtime.ctx().own();
                let ctx = runtime.ctx_mut();
                ctx.set(self.ident.clone(), v);
                assert(own.push((self.ident@, v@)) =~= own + seq![(self.ident@, v@)]);
            },
            None => {
                assert(runtime.ctx().own() + Seq::<(Seq<char>, ValueView)>::empty()
                    =~= runtime.ctx().own());
            },
        }
        None
    }
}

impl Processable for Item {
    open spec fn result(&self, scope: Seq<(Seq<char>, ValueView)>) -> Option<ValueView> {
        match self {
            Item::Let(_) => None,
            Item::Expr(e) => expr_value(*e, scope),
        }
    }

    open spec fn bindings(&self, scope: Seq<(Seq<char>, ValueView)>) -> Seq<(Seq<char>, ValueView)> {
        item_bindings(*self, scope)
    }

    fn process(&self, runtime: &mut Runtime) -> (out: Option<Value>) {
        match self {
            Item::Let(item) => item.process(runtime),
            Item::Expr(e) => e.process(runtime),
        }
    }
}

impl Processable for Script {
    open spec fn result(&self, scope: Seq<(Seq<char>, ValueView)>) -> Option<ValueView> {
        None
    }

    open spec fn bindings(&self, scope: Seq<(Seq<char>, ValueView)>) -> Seq<(Seq<char>, ValueView)> {
        script_bindings(self.items@, self.items@.len(), scope)
    }

    fn process(&self, runtime: &mut Runtime) -> (out: Option<Value>) {
        let ghost scope = runtime.ctx().scope();
        let ghost own = runtime.ctx().own();
        let mut i: usize = 0;
        assert(own + script_bindings(self.items@, 0, scope) =~= own);
        while i < self.items.len()
            invariant
                i <= self.items.len(),
                runtime.ctx().outer() == old(runtime).ctx().outer(),
                scope == old(runtime).ctx().scope(),
                own == old(runtime).ctx().own(),
                runtime.ctx().own() == own + script_bindings(self.items@, i as nat, scope),
            decreases self.items.len() - i,
        {
            let ghost before = script_bindings(self.items@, i as nat, scope);
            proof {
                lemma_scope_grows(old(runtime).ctx(), runtime.ctx(), before);
            }
            self.items[i].process(runtime);
            assert(runtime.ctx().own() =~= own + script_bindings(
                self.items@,
                (i + 1) as nat,
                scope,
            ));
            i += 1;
        }
        None
    }
}

/// A scope that has gained bindings of its own sees those behind all it
/// saw before.
pub proof fn lemma_scope_grows(
    before: &Context,
    after: &Context,
    added: Seq<(Seq<char>, ValueView)>,
)
    requires
        after.outer() == before.outer(),
        after.own() == before.own() + added,
    ensures
        after.scope() == before.scope() + added,
{
    match before.outer() {
        Some(parent) => {
            assert(parent.scope() + (before.own() + added) =~= (parent.scope() + before.own())
                + added);
        },
        None => {},
    }
}

impl From<Vec<Item>> for Script {
    fn from(items: Vec<Item>) -> (out: Script) {
        Script { items }
    }
}

impl vstd::std_specs::convert::FromSpecImpl<Vec<Item>> for Script {
    open spec fn obeys_from_spec() -> bool {
        true
    }

    open spec fn from_spec(items: Vec<Item>) -> Script {
        Script { items }
    }
}

} // verus!
