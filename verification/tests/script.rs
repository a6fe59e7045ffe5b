use reqaz::script::apply_string_escapes;
use reqaz::script::lang::{BinOp, Expr, ExprBinary, ExprCall, Item, ItemLet, Lit, Script};
use reqaz::script::runtime::{Context, Processable, Runtime, Value};

fn number(v: Option<Value>) -> Option<i64> {
    match v {
        Some(Value::Number(n)) => Some(n),
        _ => None,
    }
}

fn string(v: Option<Value>) -> Option<String> {
    match v {
        Some(Value::String(s)) => Some(s),
        _ => None,
    }
}

fn lit(n: i64) -> Expr {
    Expr::Lit(Lit::Int(n))
}

fn binary(left: Expr, op: BinOp, right: Expr) -> Expr {
    Expr::Binary(ExprBinary::new(left, op, right))
}

#[test]
fn escapes() {
    assert_eq!(apply_string_escapes("plain"), "plain");
    assert_eq!(apply_string_escapes("a\\nb"), "a\nb");
    assert_eq!(apply_string_escapes("a\\tb\\rc"), "a\tb\rc");
    assert_eq!(apply_string_escapes("say \\\"hi\\\""), "say \"hi\"");
    assert_eq!(apply_string_escapes("back\\\\slash"), "back\\slash");
    assert_eq!(apply_string_escapes("\\\\n"), "\\n");
    assert_eq!(apply_string_escapes(""), "");
}

#[test]
fn arithmetic_on_numbers() {
    assert_eq!(number(Value::Number(2).add(Value::Number(3))), Some(5));
    assert_eq!(number(Value::Number(2).sub(Value::Number(3))), Some(-1));
    assert_eq!(number(Value::Number(-4).mul(Value::Number(3))), Some(-12));
    assert_eq!(number(Value::Number(7).div(Value::Number(2))), Some(3));
    assert_eq!(number(Value::Number(-7).div(Value::Number(2))), Some(-3));
    assert_eq!(number(Value::Number(7).div(Value::Number(-2))), Some(-3));
    assert_eq!(number(Value::Number(-7).div(Value::Number(-2))), Some(3));
}

#[test]
fn arithmetic_without_a_value() {
    assert!(Value::Number(1).div(Value::Number(0)).is_none());
    assert!(Value::Number(i64::MAX).add(Value::Number(1)).is_none());
    assert!(Value::Number(i64::MIN).sub(Value::Number(1)).is_none());
    assert!(Value::Number(i64::MAX).mul(Value::Number(2)).is_none());
    assert!(Value::Number(i64::MIN).div(Value::Number(-1)).is_none());
    assert!(Value::Number(1).add(Value::String("a".to_string())).is_none());
    assert!(Value::String("a".to_string()).sub(Value::String("b".to_string())).is_none());
    assert!(Value::Boolean(true).add(Value::Boolean(false)).is_none());
    assert_eq!(number(Value::Number(i64::MAX).add(Value::Number(0))), Some(i64::MAX));
    assert_eq!(number(Value::Number(i64::MIN).mul(Value::Number(1))), Some(i64::MIN));
}

#[test]
fn texts_are_put_together() {
    assert_eq!(
        string(Value::String("ab".to_string()).add(Value::String("cd".to_string()))),
        Some("abcd".to_string())
    );
}

#[test]
fn values_as_text() {
    assert_eq!(Value::String("x".to_string()).text(), "x");
    assert_eq!(Value::Boolean(true).text(), "true");
    assert_eq!(Value::Boolean(false).text(), "false");
    assert_eq!(Value::Number(0).text(), "0");
    assert_eq!(Value::Number(7).text(), "7");
    assert_eq!(Value::Number(1203).text(), "1203");
    assert_eq!(Value::Number(-45).text(), "-45");
    assert_eq!(Value::Number(i64::MAX).text(), "9223372036854775807");
    assert_eq!(Value::Number(i64::MIN).text(), "-9223372036854775808");
}

#[test]
fn scopes() {
    let mut outer = Context::new(None);
    assert!(outer.set("a".to_string(), Value::Number(1)).is_none());
    assert!(outer.set("b".to_string(), Value::Number(2)).is_none());
    let mut inner = Context::new(Some(&outer));
    assert!(inner.set("a".to_string(), Value::Number(10)).is_none());
    assert_eq!(number(inner.get("a").map(|v| v.copy())), Some(10));
    assert_eq!(number(inner.get("b").map(|v| v.copy())), Some(2));
    assert!(inner.get("c").is_none());
    assert_eq!(number(inner.set("a".to_string(), Value::Number(11))), Some(10));
    assert_eq!(number(inner.get("a").map(|v| v.copy())), Some(11));
    assert_eq!(number(outer.get("a").map(|v| v.copy())), Some(1));
}

#[test]
fn expressions() {
    let mut runtime = Runtime::new();
    runtime.ctx_mut().set("x".to_string(), Value::Number(4));
    let sum = binary(Expr::Ident("x".to_string()), BinOp::Add, binary(lit(2), BinOp::Mul, lit(3)));
    assert_eq!(number(runtime.process(sum)), Some(10));
    assert!(runtime.process(Expr::Ident("y".to_string())).is_none());
    assert!(runtime.process(binary(Expr::Ident("y".to_string()), BinOp::Add, lit(1))).is_none());
    assert!(runtime.process(binary(lit(1), BinOp::Div, lit(0))).is_none());
    let call = Expr::new_call(Box::new(Expr::Ident("x".to_string())), vec![lit(1)]);
    assert!(runtime.process(call).is_none());
    assert_eq!(
        string(runtime.process(Lit::Str("s".to_string()))),
        Some("s".to_string())
    );
    assert!(matches!(runtime.process(Lit::Bool(true)), Some(Value::Boolean(true))));
}

#[test]
fn scripts_bind_in_order() {
    let mut runtime = Runtime::new();
    let script = Script::from(vec![
        Item::new_let("a".to_string(), lit(2)),
        Item::new_let("b".to_string(), binary(Expr::Ident("a".to_string()), BinOp::Mul, lit(21))),
        Item::new_let("c".to_string(), Expr::Ident("missing".to_string())),
        Item::Expr(Expr::Ident("b".to_string())),
        Item::new_let("a".to_string(), binary(Expr::Ident("a".to_string()), BinOp::Sub, lit(5))),
    ]);
    assert!(runtime.process(script).is_none());
    assert_eq!(number(runtime.ctx().get("a").map(|v| v.copy())), Some(-3));
    assert_eq!(number(runtime.ctx().get("b").map(|v| v.copy())), Some(42));
    assert!(runtime.ctx().get("c").is_none());
}

#[test]
fn items() {
    let mut runtime = Runtime::new();
    let bind = ItemLet { ident: "n".to_string(), expr: lit(9) };
    assert!(bind.process(&mut runtime).is_none());
    assert_eq!(number(Item::Expr(Expr::Ident("n".to_string())).process(&mut runtime)), Some(9));
}

#[test]
fn operations_and_calls_by_themselves() {
    let mut runtime = Runtime::new();
    runtime.ctx_mut().set("f".to_string(), Value::Number(1));
    let product = ExprBinary::new(lit(6), BinOp::Mul, lit(7));
    assert_eq!(number(product.process(&mut runtime)), Some(42));
    let quotient = ExprBinary::new(lit(6), BinOp::Div, Expr::Ident("zero".to_string()));
    assert!(quotient.process(&mut runtime).is_none());
    let call = ExprCall { func: Box::new(Expr::Ident("f".to_string())), args: vec![lit(1)] };
    assert!(call.process(&mut runtime).is_none());
    assert_eq!(number(runtime.ctx().get("f").map(|v| v.copy())), Some(1));
}
