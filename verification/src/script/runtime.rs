//! Values, the variables in scope, and the runtime that holds them.

use vstd::prelude::*;
use crate::text::{chars_of, extend, same_text, string_of};

verus! {

/// A value of the language.
#[derive(Debug)]
pub enum Value {
    /// A whole number.
    Number(i64),
    /// A text.
    String(String),
    /// A truth value.
    Boolean(bool),
}

/// A value over sequences of characters.
pub enum ValueView {
    Number(i64),
    String(Seq<char>),
    Boolean(bool),
}

impl View for Value {
    type V = ValueView;

    open spec fn view(&self) -> ValueView {
        match self {
            Value::Number(n) => ValueView::Number(*n),
            Value::String(s) => ValueView::String(s@),
            Value::Boolean(b) => ValueView::Boolean(*b),
        }
    }
}

/// A value as an optional view.
pub open spec fn value_view(v: Option<Value>) -> Option<ValueView> {
    match v {
        Some(v) => Some(v@),
        None => None,
    }
}

/// A number that fits a value, if it does.
pub open spec fn fitting(n: int) -> Option<ValueView> {
    if i64::MIN <= n <= i64::MAX {
        Some(ValueView::Number(n as i64))
    } else {
        None
    }
}

/// The quotient of two numbers, rounded towards zero.
pub open spec fn quotient(a: int, b: int) -> int
    recommends
        b != 0,
{
    if a >= 0 && b > 0 {
        a / b
    } else if a < 0 && b > 0 {
        -((-a) / b)
    } else if a >= 0 && b < 0 {
        -(a / (-b))
    } else {
        (-a) / (-b)
    }
}

impl ValueView {
    /// The sum of two numbers and the concatenation of two texts. There
    /// is no value for other operands, nor for a sum that does not fit.
    pub open spec fn plus(self, rhs: ValueView) -> Option<ValueView> {
        match (self, rhs) {
            (ValueView::Number(a), ValueView::Number(b)) => fitting(a + b),
            (ValueView::String(a), ValueView::String(b)) => Some(ValueView::String(a + b)),
            _ => None,
        }
    }

    /// The difference of two numbers.
    pub open spec fn minus(self, rhs: ValueView) -> Option<ValueView> {
        match (self, rhs) {
            (ValueView::Number(a), ValueView::Number(b)) => fitting(a - b),
            _ => None,
        }
    }

    /// The product of two numbers.
    pub open spec fn times(self, rhs: ValueView) -> Option<ValueView> {
        match (self, rhs) {
            (ValueView::Number(a), ValueView::Number(b)) => fitting(a * b),
            _ => None,
        }
    }

    /// The quotient of two numbers, rounded towards zero. There is no
    /// value for a divisor of zero.
    pub open spec fn over(self, rhs: ValueView) -> Option<ValueView> {
        match (self, rhs) {
            (ValueView::Number(a), ValueView::Number(b)) => if b == 0 {
                None
            } else {
                fitting(quotient(a as int, b as int))
            },
            _ => None,
        }
    }
}

/// Fits a number into a value.
fn fit(n: i128) -> (out: Option<Value>)
    ensures
        value_view(out) == fitting(n as int),
{
    if n >= -9223372036854775808i128 && n <= 9223372036854775807i128 {
        Some(Value::Number(n as i64))
    } else {
        None
    }
}

impl Value {
    /// A copy of the value.
    pub fn copy(&self) -> (out: Value)
        ensures
            out@ == self@,
    {
        match self {
            Value::Number(n) => Value::Number(*n),
            Value::String(s) => Value::String(s.clone()),
            Value::Boolean(b) => Value::Boolean(*b),
        }
    }

    /// The sum of two numbers or the concatenation of two texts.
    pub fn add(self, rhs: Value) -> (out: Option<Value>)
        ensures
            value_view(out) == self@.plus(rhs@),
    {
        match (self, rhs) {
            (Value::Number(a), Value::Number(b)) => fit(a as i128 + b as i128),
            (Value::String(a), Value::String(b)) => {
                let mut text = chars_of(a.as_str());
                extend(&mut text, &chars_of(b.as_str()));
                Some(Value::String(string_of(&text)))
            },
            _ => None,
        }
    }

    /// The difference of two numbers.
    pub fn sub(self, rhs: Value) -> (out: Option<Value>)
        ensures
            value_view(out) == self@.minus(rhs@),
    {
        match (self, rhs) {
            (Value::Number(a), Value::Number(b)) => fit(a as i128 - b as i128),
            _ => None,
        }
    }

    /// The product of two numbers.
    pub fn mul(self, rhs: Value) -> (out: Option<Value>)
        ensures
            value_view(out) == self@.times(rhs@),
    {
        match (self, rhs) {
            (Value::Number(a), Value::Number(b)) => {
                assert(-0x8000_0000_0000_0000 * 0x8000_0000_0000_0000 <= a * b
                    <= 0x8000_0000_0000_0000 * 0x8000_0000_0000_0000) by (nonlinear_arith)
                    requires
                        -0x8000_0000_0000_0000 <= a < 0x8000_0000_0000_0000,
                        -0x8000_0000_0000_0000 <= b < 0x8000_0000_0000_0000,
                ;
                fit(a as i128 * b as i128)
            },
            _ => None,
        }
    }

    /// The quotient of two numbers, rounded towards zero.
    pub fn div(self, rhs: Value) -> (out: Option<Value>)
        ensures
            value_view(out) == self@.over(rhs@),
    {
        match (self, rhs) {
            (Value::Number(a), Value::Number(b)) => {
                if b == 0 {
                    return None;
                }
                let x = a as i128;
                let y = b as i128;
                let q: i128 = if x >= 0 && y > 0 {
                    x / y
                } else if x < 0 && y > 0 {
                    -((-x) / y)
                } else if x >= 0 && y < 0 {
                    -(x / (-y))
                } else {
                    (-x) / (-y)
                };
                fit(q)
            },
            _ => None,
        }
    }

    /// The value as text: a text as it is, a number in decimal digits, a
    /// truth value as `true` or `false`.
    pub fn text(&self) -> (out: String)
        ensures
            match self@ {
                ValueView::String(s) => out@ == s,
                ValueView::Boolean(b) => out@ == (if b {
                    "true"@
                } else {
                    "false"@
                }),
                ValueView::Number(n) => out@ == decimal(n as int),
            },
    {
        match self {
            Value::String(s) => s.clone(),
            Value::Boolean(b) => if *b {
                "true".to_owned()
            } else {
                "false".to_owned()
            },
            Value::Number(n) => {
                let n = *n as i128;
                let mut digits: Vec<char> = Vec::new();
                if n < 0 {
                    digits.push('-');
                    write_digits(-n, &mut digits);
                } else {
                    write_digits(n, &mut digits);
                }
                string_of(&digits)
            },
        }
    }
}

/// The decimal digit of a number below ten.
pub open spec fn digit(d: int) -> char {
    (('0' as u8) + (d as u8)) as char
}

/// The decimal digits of a number that is not negative.
pub open spec fn digits(n: int) -> Seq<char>
    decreases n,
{
    if n < 10 {
        seq![digit(n)]
    } else {
        digits(n / 10).push(digit(n % 10))
    }
}

/// A whole number in decimal digits, with a minus sign where it is
/// negative.
pub open spec fn decimal(n: int) -> Seq<char> {
    if n < 0 {
        seq!['-'] + digits(-n)
    } else {
        digits(n)
    }
}

/// Appends the decimal digits of a number that is not negative.
fn write_digits(n: i128, out: &mut Vec<char>)
    requires
        n >= 0,
    ensures
        final(out)@ == old(out)@ + digits(n as int),
    decreases n,
{
    if n >= 10 {
        write_digits(n / 10, out);
    }
    let d = (n % 10) as u8;
    out.push((48u8 + d) as char);
    assert(final(out)@ =~= old(out)@ + digits(n as int));
}

/// The value that `key` has in a list of bindings: that of the last
/// binding of that name.
pub open spec fn bound(bindings: Seq<(Seq<char>, ValueView)>, key: Seq<char>) -> Option<ValueView>
    decreases bindings.len(),
{
    if bindings.len() == 0 {
        None
    } else if bindings.last().0 == key {
        Some(bindings.last().1)
    } else {
        bound(bindings.drop_last(), key)
    }
}

/// In two lists of bindings, one after the other, a name has the value
/// that the second gives it, and that of the first where the second
/// gives it none.
pub proof fn lemma_bound_append(
    first: Seq<(Seq<char>, ValueView)>,
    second: Seq<(Seq<char>, ValueView)>,
    key: Seq<char>,
)
    ensures
        bound(first + second, key) == match bound(second, key) {
            Some(v) => Some(v),
            None => bound(first, key),
        },
    decreases second.len(),
{
    if second.len() == 0 {
        assert(first + second =~= first);
    } else {
        assert((first + second).last() == second.last());
        assert((first + second).drop_last() =~= first + second.drop_last());
        lemma_bound_append(first, second.drop_last(), key);
    }
}

/// The variables of one scope, with the scope around it.
pub struct Context<'me> {
    parent: Option<&'me Context<'me>>,
    map: Vec<(String, Value)>,
}

impl<'me> Context<'me> {
    /// The bindings of this scope alone, in the order in which they were
    /// made.
    pub closed spec fn own(&self) -> Seq<(Seq<char>, ValueView)> {
        self.map@.map_values(|b: (String, Value)| (b.0@, b.1@))
    }

    /// The scope around this one.
    pub closed spec fn outer(&self) -> Option<&'me Context<'me>> {
        self.parent
    }

    /// The value that `key` has in this scope: the one bound here, else
    /// the one it has in the scope around.
    pub open spec fn value(&self, key: Seq<char>) -> Option<ValueView>
        decreases self,
    {
        match bound(self.own(), key) {
            Some(v) => Some(v),
            None => match self.outer() {
                Some(parent) => parent.value(key),
                None => None,
            },
        }
    }

    /// All bindings in sight from this scope: those of the scopes around
    /// it, outermost first, then its own.
    pub open spec fn scope(&self) -> Seq<(Seq<char>, ValueView)>
        decreases self,
    {
        match self.outer() {
            Some(parent) => parent.scope() + self.own(),
            None => self.own(),
        }
    }

    /// The value of a variable is that of its last binding in sight.
    pub proof fn lemma_scope(&self, key: Seq<char>)
        ensures
            self.value(key) == bound(self.scope(), key),
        decreases self,
    {
        match self.outer() {
            Some(parent) => {
                parent.lemma_scope(key);
                lemma_bound_append(parent.scope(), self.own(), key);
            },
            None => {},
        }
    }

    /// A scope without variables inside the given one.
    pub fn new(parent: Option<&'me Context<'me>>) -> (out: Context<'me>)
        ensures
            out.own() == Seq::<(Seq<char>, ValueView)>::empty(),
            out.outer() == parent,
    {
        let out = Context { parent, map: Vec::new() };
        assert(out.own() =~= Seq::empty());
        out
    }

    /// The binding of `key` in this scope alone.
    fn own_value(&self, key: &str) -> (out: Option<&Value>)
        ensures
            match out {
                Some(v) => bound(self.own(), key@) == Some(v@),
                None => bound(self.own(), key@) is None,
            },
    {
        let mut i: usize = self.map.len();
        assert(self.own().take(i as int) == self.own());
        while i > 0
            invariant
                i <= self.map.len(),
                bound(self.own(), key@) == bound(self.own().take(i as int), key@),
            decreases i,
        {
            let entry = &self.map[i - 1];
            assert(self.own().take(i as int).last() == (entry.0@, entry.1@));
            if same_text(entry.0.as_str(), key) {
                return Some(&entry.1);
            }
            assert(self.own().take(i as int).drop_last() == self.own().take(i - 1));
            i -= 1;
        }
        None
    }

    /// The value of the variable `key`, looked for in this scope and then
    /// in the scopes around it.
    pub fn get(&self, key: &str) -> (out: Option<&Value>)
        ensures
            match out {
                Some(v) => self.value(key@) == Some(v@),
                None => self.value(key@) is None,
            },
        decreases self,
    {
        match self.own_value(key) {
            Some(v) => Some(v),
            None => match self.parent {
                Some(parent) => parent.get(key),
                None => None,
            },
        }
    }

    /// Binds `key` to `value` in this scope and returns the value that it
    /// had in this scope before.
    pub fn set(&mut self, key: String, value: Value) -> (out: Option<Value>)
        ensures
            final(self).own() == old(self).own().push((key@, value@)),
            final(self).outer() == old(self).outer(),
            value_view(out) == bound(old(self).own(), key@),
    {
        let before = match self.own_value(key.as_str()) {
            Some(v) => Some(v.copy()),
            None => None,
        };
        self.map.push((key, value));
        assert(self.own() =~= old(self).own().push((key@, value@)));
        before
    }
}

/// Something that the runtime can evaluate.
pub trait Processable {
    /// The value that evaluation gives where the given bindings are in
    /// sight.
    spec fn result(&self, scope: Seq<(Seq<char>, ValueView)>) -> Option<ValueView>;

    /// The bindings that evaluation adds where the given bindings are in
    /// sight.
    spec fn bindings(&self, scope: Seq<(Seq<char>, ValueView)>) -> Seq<(Seq<char>, ValueView)>;

    /// Evaluates in the given runtime. What is bound is bound in the
    /// runtime's own scope.
    fn process(&self, runtime: &mut Runtime) -> (out: Option<Value>)
        ensures
            value_view(out) == self.result(old(runtime).ctx().scope()),
            final(runtime).ctx().own() == old(runtime).ctx().own() + self.bindings(
                old(runtime).ctx().scope(),
            ),
            final(runtime).ctx().outer() == old(runtime).ctx().outer(),
    ;
}

/// The state in which scripts run.
pub struct Runtime<'me> {
    ctx: Context<'me>,
}

impl<'me> Runtime<'me> {
    /// A runtime whose scope has no variables.
    pub fn new() -> (out: Runtime<'me>)
        ensures
            out.ctx().own() == Seq::<(Seq<char>, ValueView)>::empty(),
            out.ctx().outer() is None,
    {
        Runtime { ctx: Context::new(None) }
    }

    /// Evaluates something in this runtime.
    pub fn process<P: Processable>(&mut self, processable: P) -> (out: Option<Value>)
        ensures
            value_view(out) == processable.result(old(self).ctx().scope()),
            final(self).ctx().own() == old(self).ctx().own() + processable.bindings(
                old(self).ctx().scope(),
            ),
            final(self).ctx().outer() == old(self).ctx().outer(),
    {
        processable.process(self)
    }

    /// The scope of the runtime.
    #[verifier::when_used_as_spec(spec_ctx)]
    pub fn ctx(&self) -> (out: &Context<'me>)
        ensures
            out == self.spec_ctx(),
    {
        &self.ctx
    }

    /// The scope of the runtime, as a specification.
    pub closed spec fn spec_ctx(&self) -> &Context<'me> {
        &self.ctx
    }

    /// The scope of the runtime, to be changed.
    pub fn ctx_mut(&mut self) -> (out: &mut Context<'me>)
        ensures
            *out == *old(self).ctx(),
            *final(self).ctx() == *final(out),
    {
        &mut self.ctx
    }
}

} // verus!
