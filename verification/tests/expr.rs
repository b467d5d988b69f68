use waverunner::expr::{eval_expr, eval_truthy};
use waverunner::json::JsonValue;
use waverunner::state::StateMap;

fn s(x: &str) -> JsonValue {
    JsonValue::Str(x.to_string())
}

fn op(name: &str, args: Vec<JsonValue>) -> JsonValue {
    let mut v = vec![s(name)];
    v.extend(args);
    JsonValue::Array(v)
}

fn states() -> (StateMap, StateMap) {
    let mut g = StateMap::new();
    g.insert("score".to_string(), JsonValue::Int(3));
    g.insert("flag".to_string(), JsonValue::Bool(true));
    let mut p = StateMap::new();
    p.insert("seen".to_string(), JsonValue::Bool(false));
    p.insert("count".to_string(), JsonValue::Int(2));
    (g, p)
}

fn is_float(v: &JsonValue, n: i64) -> bool {
    matches!(v, JsonValue::Float(x) if *x == n)
}

#[test]
fn literals_evaluate_to_themselves() {
    let (g, p) = states();
    assert!(matches!(eval_expr(&JsonValue::Int(7), &g, &p), JsonValue::Int(7)));
    assert!(matches!(eval_expr(&s("x"), &g, &p), JsonValue::Str(ref t) if t == "x"));
    assert!(matches!(eval_expr(&JsonValue::Array(vec![]), &g, &p), JsonValue::Null));
    assert!(matches!(eval_expr(&op("bogus", vec![]), &g, &p), JsonValue::Null));
    assert!(matches!(eval_expr(&JsonValue::Array(vec![JsonValue::Int(1)]), &g, &p), JsonValue::Null));
}

#[test]
fn state_reads() {
    let (g, p) = states();
    assert!(matches!(eval_expr(&op("globalState", vec![s("score")]), &g, &p), JsonValue::Int(3)));
    assert!(matches!(eval_expr(&op("persistentState", vec![s("count")]), &g, &p), JsonValue::Int(2)));
    assert!(matches!(eval_expr(&op("persistentState", vec![s("missing")]), &g, &p), JsonValue::Null));
}

#[test]
fn sums_and_products_are_floats() {
    let (g, p) = states();
    let sum = op("sum", vec![op("globalState", vec![s("score")]), JsonValue::Int(4), op("persistentState", vec![s("count")])]);
    assert!(is_float(&eval_expr(&sum, &g, &p), 9));
    let mult = op("mult", vec![JsonValue::Int(3), JsonValue::Int(-2), op("persistentState", vec![s("count")])]);
    assert!(is_float(&eval_expr(&mult, &g, &p), -12));
    assert!(is_float(&eval_expr(&op("sum", vec![]), &g, &p), 0));
    assert!(is_float(&eval_expr(&op("mult", vec![]), &g, &p), 1));
}

#[test]
fn comparisons_and_logic() {
    let (g, p) = states();
    let score = || op("globalState", vec![s("score")]);
    assert!(eval_truthy(&op("gt", vec![score(), JsonValue::Int(2)]), &g, &p));
    assert!(!eval_truthy(&op("lt", vec![score(), JsonValue::Int(2)]), &g, &p));
    assert!(eval_truthy(&op("gte", vec![score(), JsonValue::Int(3)]), &g, &p));
    assert!(eval_truthy(&op("lte", vec![score(), JsonValue::Int(3)]), &g, &p));
    assert!(eval_truthy(&op("eql", vec![score(), JsonValue::Int(3)]), &g, &p));
    assert!(eval_truthy(&op("not", vec![op("persistentState", vec![s("seen")])]), &g, &p));
    assert!(eval_truthy(&op("and", vec![JsonValue::Bool(true), op("globalState", vec![s("flag")])]), &g, &p));
    assert!(!eval_truthy(&op("and", vec![JsonValue::Bool(true), JsonValue::Bool(false)]), &g, &p));
    assert!(eval_truthy(&op("or", vec![JsonValue::Bool(false), JsonValue::Int(1)]), &g, &p));
    assert!(!eval_truthy(&op("or", vec![]), &g, &p));
    assert!(eval_truthy(&op("and", vec![]), &g, &p));
}

#[test]
fn state_map_insert_replaces_and_counts_truthy() {
    let mut m = StateMap::new();
    m.insert("a".to_string(), JsonValue::Bool(true));
    m.insert("b".to_string(), JsonValue::Int(0));
    m.insert("c".to_string(), s("x"));
    assert_eq!(m.truthy_count(), 2);
    m.insert("a".to_string(), JsonValue::Bool(false));
    assert_eq!(m.truthy_count(), 1);
    assert!(matches!(m.get("a"), Some(JsonValue::Bool(false))));
    assert!(m.get("zzz").is_none());
}
