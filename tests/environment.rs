use linked::env::Environment;
use linked::reduce::{reduce_division, reduce_equality, reduce_subtraction};
use linked::types::Expression;

fn sym(s: &str) -> Expression {
    Expression::Symbol(s.to_string())
}

#[test]
fn unbound_name_resolves_to_itself() {
    let env = Environment::new();
    assert!(!env.is_defined("x"));
    let (params, v) = env.get("x");
    assert!(params.is_empty());
    assert!(v.equals(&sym("x")));
}

#[test]
fn global_binding_is_seen_from_inner_scopes() {
    let mut env = Environment::new();
    env.global_push("x".to_string(), vec![], Expression::Number(1));
    env.add_scope();
    assert!(env.is_defined("x"));
    assert!(env.get("x").1.equals(&Expression::Number(1)));
}

#[test]
fn local_binding_shadows_and_goes_with_its_scope() {
    let mut env = Environment::new();
    env.global_push("x".to_string(), vec![], Expression::Number(1));
    env.add_scope();
    env.local_push("x".to_string(), vec![], Expression::Number(2));
    assert!(env.get("x").1.equals(&Expression::Number(2)));
    env.pop_scope();
    assert!(env.get("x").1.equals(&Expression::Number(1)));
}

#[test]
fn rebinding_overwrites() {
    let mut env = Environment::new();
    env.global_push("f".to_string(), vec!["a".to_string()], sym("a"));
    env.global_push("f".to_string(), vec!["b".to_string(), "c".to_string()], sym("c"));
    let (params, v) = env.get("f");
    assert_eq!(params, vec!["b".to_string(), "c".to_string()]);
    assert!(v.equals(&sym("c")));
}

#[test]
fn global_scope_is_never_popped() {
    let mut env = Environment::new();
    env.global_push("x".to_string(), vec![], Expression::Number(3));
    env.pop_scope();
    env.pop_scope();
    assert!(env.get("x").1.equals(&Expression::Number(3)));
    // local writes still land in the global scope
    env.local_push("y".to_string(), vec![], Expression::Number(4));
    assert!(env.get("y").1.equals(&Expression::Number(4)));
}

#[test]
fn subtraction_rule_on_evaluated_operands() {
    let r = reduce_subtraction(&vec![sym("x"), Expression::Number(2), Expression::Number(3)]);
    assert!(r.equals(&Expression::List(vec![sym("-"), sym("x"), Expression::Number(5)])));
}

#[test]
fn division_rule_on_evaluated_operands() {
    let r = reduce_division(&vec![Expression::Number(20), Expression::Number(2), Expression::Number(5)]);
    assert!(r.equals(&Expression::Number(2)));
}

#[test]
fn equality_rule_on_evaluated_operands() {
    let r = reduce_equality(&vec![sym("a"), sym("b"), sym("a")]);
    assert!(r.equals(&Expression::List(vec![sym("="), sym("a"), sym("b")])));
}
