use linked::evaluator::{evaluate, Evaluator};
use linked::types::Expression;

fn sym(s: &str) -> Expression {
    Expression::Symbol(s.to_string())
}

fn num(n: i64) -> Expression {
    Expression::Number(n)
}

fn list(v: Vec<Expression>) -> Expression {
    Expression::List(v)
}

fn eval_one(e: Expression) -> Expression {
    evaluate(vec![e])
}

fn assert_same(actual: Expression, expected: Expression) {
    assert!(actual.equals(&expected), "got {:?}, expected {:?}", actual, expected);
}

#[test]
fn numeric_addition_folds() {
    assert_same(eval_one(list(vec![sym("+"), num(1), num(2), num(3)])), num(6));
}

#[test]
fn numeric_subtraction_folds_after_base() {
    assert_same(eval_one(list(vec![sym("-"), num(10), num(1), num(2)])), num(7));
}

#[test]
fn numeric_multiplication_folds() {
    assert_same(eval_one(list(vec![sym("*"), num(2), num(3), num(4)])), num(24));
}

#[test]
fn numeric_division_folds_after_base() {
    assert_same(eval_one(list(vec![sym("/"), num(24), num(2), num(3)])), num(4));
}

#[test]
fn unary_minus_negates() {
    assert_same(eval_one(list(vec![sym("-"), num(5)])), num(-5));
}

#[test]
fn unary_division_is_reciprocal() {
    assert_same(eval_one(list(vec![sym("/"), num(1)])), num(1));
    assert_same(eval_one(list(vec![sym("/"), num(-1)])), num(-1));
}

#[test]
fn addition_with_no_operands_is_zero() {
    assert_same(eval_one(list(vec![sym("+")])), num(0));
}

#[test]
fn values_evaluate_to_themselves() {
    assert_same(eval_one(num(7)), num(7));
    assert_same(eval_one(Expression::Boolean(true)), Expression::Boolean(true));
    assert_same(eval_one(Expression::Boolean(false)), Expression::Boolean(false));
    assert_same(eval_one(Expression::Nil), Expression::Nil);
}

#[test]
fn strings_and_quotes_are_left_alone() {
    let s = Expression::String("hi".to_string());
    assert_same(eval_one(s.copy()), s);
    let q = Expression::Quote(Box::new(list(vec![sym("+"), num(1), num(2)])));
    assert_same(eval_one(q.copy()), q);
}

#[test]
fn zero_sum_is_elided() {
    assert_same(
        eval_one(list(vec![sym("+"), num(0), sym("x")])),
        list(vec![sym("+"), sym("x")]),
    );
}

#[test]
fn unit_product_is_elided() {
    assert_same(
        eval_one(list(vec![sym("*"), num(1), sym("x")])),
        list(vec![sym("*"), sym("x")]),
    );
}

#[test]
fn nonzero_sum_leads_the_residue() {
    assert_same(
        eval_one(list(vec![sym("+"), sym("x"), num(2), sym("y"), num(3)])),
        list(vec![sym("+"), num(5), sym("x"), sym("y")]),
    );
}

#[test]
fn free_symbol_equals_itself() {
    assert_same(
        eval_one(list(vec![sym("="), sym("a"), sym("a")])),
        Expression::Boolean(true),
    );
}

#[test]
fn mismatched_literals_are_false() {
    assert_same(
        eval_one(list(vec![sym("="), num(1), num(2)])),
        Expression::Boolean(false),
    );
    assert_same(
        eval_one(list(vec![sym("="), num(1), sym("a"), num(2), sym("b")])),
        Expression::Boolean(false),
    );
}

#[test]
fn equality_keeps_literal_and_distinct_symbols() {
    assert_same(
        eval_one(list(vec![sym("="), num(1), sym("a"), num(1), sym("b"), sym("a")])),
        list(vec![sym("="), num(1), sym("a"), sym("b")]),
    );
}

#[test]
fn equality_edge_forms() {
    assert_same(eval_one(list(vec![sym("="), sym("x")])), Expression::Boolean(true));
    assert_same(eval_one(list(vec![sym("=")])), list(vec![sym("=")]));
    assert_same(eval_one(list(vec![sym("="), num(3), num(3)])), Expression::Boolean(true));
    assert_same(
        eval_one(list(vec![sym("="), sym("a"), sym("b")])),
        list(vec![sym("="), sym("a"), sym("b")]),
    );
}

#[test]
fn define_then_lookup() {
    let r = evaluate(vec![list(vec![sym("define"), sym("x"), num(5)]), sym("x")]);
    assert_same(r, num(5));
}

#[test]
fn define_returns_the_value() {
    assert_same(eval_one(list(vec![sym("define"), sym("x"), num(5)])), num(5));
}

#[test]
fn define_and_apply_square() {
    let def = list(vec![
        sym("define"),
        list(vec![sym("square"), sym("n")]),
        list(vec![sym("*"), sym("n"), sym("n")]),
    ]);
    let call = list(vec![sym("square"), num(4)]);
    let mut ev = Evaluator::new();
    assert_same(ev.evaluate_next(&def), list(vec![sym("*"), sym("n"), sym("n")]));
    assert_same(ev.evaluate_next(&call), num(16));
}

#[test]
fn malformed_define_is_left_unreduced() {
    let form = list(vec![sym("define"), list(vec![sym("f"), num(1)]), num(2)]);
    assert_same(eval_one(form.copy()), form);
    let short = list(vec![sym("define"), sym("x")]);
    assert_same(eval_one(short.copy()), short);
}

#[test]
fn unbound_application_is_left_unreduced() {
    let form = list(vec![sym("foo"), num(1), list(vec![sym("+"), num(1), num(2)])]);
    assert_same(eval_one(form.copy()), form);
}

#[test]
fn nested_applications_keep_scopes_balanced() {
    let mut ev = Evaluator::new();
    ev.evaluate_next(&list(vec![
        sym("define"),
        list(vec![sym("inc"), sym("n")]),
        list(vec![sym("+"), sym("n"), num(1)]),
    ]));
    ev.evaluate_next(&list(vec![
        sym("define"),
        list(vec![sym("twice"), sym("m")]),
        list(vec![sym("inc"), list(vec![sym("inc"), sym("m")])]),
    ]));
    assert_same(ev.evaluate_next(&list(vec![sym("twice"), num(3)])), num(5));
    // parameters bound during the calls are gone afterwards
    assert_same(ev.evaluate_next(&sym("m")), sym("m"));
    assert_same(ev.evaluate_next(&sym("n")), sym("n"));
    ev.evaluate_next(&list(vec![sym("define"), sym("y"), num(9)]));
    assert_same(ev.evaluate_next(&sym("y")), num(9));
}

#[test]
fn cond_picks_first_true_clause() {
    let form = list(vec![
        sym("cond"),
        list(vec![list(vec![sym("="), num(1), num(2)]), num(10)]),
        list(vec![list(vec![sym("="), num(1), num(1)]), num(20)]),
    ]);
    assert_same(eval_one(form), num(20));
}

#[test]
fn cond_with_all_false_is_nil() {
    let form = list(vec![
        sym("cond"),
        list(vec![Expression::Boolean(false), num(10)]),
    ]);
    assert_same(eval_one(form), Expression::Nil);
}

#[test]
fn cond_defers_undecided_clauses() {
    let c1 = list(vec![sym("x"), num(1)]);
    let c2 = list(vec![list(vec![sym("="), num(1), num(1)]), num(2)]);
    let form = list(vec![sym("cond"), c1.copy(), c2.copy()]);
    assert_same(eval_one(form), list(vec![sym("cond"), list(vec![c1, c2])]));
}

#[test]
fn cond_alone_is_left_unreduced() {
    assert_same(eval_one(list(vec![sym("cond")])), list(vec![sym("cond")]));
}

#[test]
fn numeric_base_with_residue_keeps_base_and_fold() {
    assert_same(
        eval_one(list(vec![sym("-"), num(10), sym("x"), num(3)])),
        list(vec![sym("-"), num(10), num(3)]),
    );
    assert_same(
        eval_one(list(vec![sym("/"), num(12), sym("x"), num(3)])),
        list(vec![sym("/"), num(12), num(3)]),
    );
}

#[test]
fn symbolic_base_puts_fold_after_residue() {
    assert_same(
        eval_one(list(vec![sym("-"), sym("x"), num(3), sym("y")])),
        list(vec![sym("-"), sym("x"), sym("y"), num(3)]),
    );
    assert_same(
        eval_one(list(vec![sym("/"), sym("x"), num(2), sym("y")])),
        list(vec![sym("/"), sym("x"), sym("y"), num(2)]),
    );
    assert_same(
        eval_one(list(vec![sym("-"), sym("x"), num(0)])),
        list(vec![sym("-"), sym("x")]),
    );
}

#[test]
fn unary_minus_of_symbol_is_unreduced() {
    assert_same(
        eval_one(list(vec![sym("-"), sym("x")])),
        list(vec![sym("-"), sym("x")]),
    );
}

#[test]
fn overflow_leaves_form_unreduced() {
    let form = list(vec![sym("+"), num(i64::MAX), num(1)]);
    assert_same(eval_one(form.copy()), form);
    let prod = list(vec![sym("*"), num(i64::MAX), num(2)]);
    assert_same(eval_one(prod.copy()), prod);
}

#[test]
fn division_by_zero_leaves_form_unreduced() {
    let form = list(vec![sym("/"), num(5), num(0)]);
    assert_same(eval_one(form.copy()), form);
    let unary = list(vec![sym("/"), num(0)]);
    assert_same(eval_one(unary.copy()), unary);
}

#[test]
fn integer_division_truncates() {
    assert_same(eval_one(list(vec![sym("/"), num(7), num(2)])), num(3));
    assert_same(eval_one(list(vec![sym("/"), num(-7), num(2)])), num(-3));
}

#[test]
fn generic_list_evaluates_each_element() {
    assert_same(
        eval_one(list(vec![num(1), list(vec![sym("+"), num(1), num(2)])])),
        list(vec![num(1), num(3)]),
    );
}

#[test]
fn evaluating_nothing_gives_nil() {
    assert_same(evaluate(vec![]), Expression::Nil);
}

#[test]
fn equals_compares_structure() {
    let a = list(vec![sym("a"), num(1), Expression::String("s".to_string())]);
    let b = list(vec![sym("a"), num(1), Expression::String("s".to_string())]);
    let c = list(vec![sym("a"), num(2)]);
    assert!(a.equals(&b));
    assert!(!a.equals(&c));
    assert!(!sym("x").equals(&Expression::String("x".to_string())));
}

#[test]
fn copy_is_deep_and_equal() {
    let a = list(vec![sym("a"), Expression::Unquote(Box::new(num(4)))]);
    assert!(a.copy().equals(&a));
}
