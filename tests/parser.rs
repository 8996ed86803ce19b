use linked::parser::parse;
use linked::printer::render;
use linked::scanner::scan;
use linked::types::Expression;

fn toks(v: &[&str]) -> Vec<String> {
    v.iter().map(|s| s.to_string()).collect()
}

fn sym(s: &str) -> Expression {
    Expression::Symbol(s.to_string())
}

fn assert_forest(actual: Vec<Expression>, expected: Vec<Expression>) {
    assert_eq!(actual.len(), expected.len(), "got {:?}", actual);
    for (a, e) in actual.iter().zip(expected.iter()) {
        assert!(a.equals(e), "got {:?}, expected {:?}", a, e);
    }
}

#[test]
fn parses_a_list() {
    assert_forest(
        parse(toks(&["(", "+", "1", "x", ")"])),
        vec![Expression::List(vec![sym("+"), Expression::Number(1), sym("x")])],
    );
}

#[test]
fn no_lexemes_give_nil() {
    assert_forest(parse(vec![]), vec![Expression::Nil]);
}

#[test]
fn parses_atoms() {
    assert_forest(
        parse(toks(&["true", "f", "nil", "-42", "\"hi there\"", "abc1", "%"])),
        vec![
            Expression::Boolean(true),
            Expression::Boolean(false),
            Expression::Nil,
            Expression::Number(-42),
            Expression::String("hi there".to_string()),
            sym("abc1"),
            sym("%"),
        ],
    );
}

#[test]
fn parses_quote_and_unquote() {
    assert_forest(
        parse(toks(&["'", "x", ",", "(", "y", ")"])),
        vec![
            Expression::Quote(Box::new(sym("x"))),
            Expression::Unquote(Box::new(Expression::List(vec![sym("y")]))),
        ],
    );
}

#[test]
fn empty_and_unclosed_lists_are_nil() {
    assert_forest(parse(toks(&["(", ")"])), vec![Expression::Nil]);
    assert_forest(parse(toks(&["(", "a"])), vec![Expression::Nil]);
    assert_forest(parse(toks(&["(", "(", "a"])), vec![Expression::Nil]);
}

#[test]
fn unknown_lexemes_are_nil() {
    assert_forest(parse(toks(&[")", "a-b"])), vec![Expression::Nil, Expression::Nil]);
}

#[test]
fn number_that_overflows_is_not_a_number() {
    assert_forest(parse(toks(&["99999999999999999999"])), vec![Expression::Nil]);
}

#[test]
fn renders_values() {
    let e = Expression::List(vec![
        sym("+"),
        Expression::Number(-12),
        Expression::String("s".to_string()),
        Expression::Boolean(true),
        Expression::Nil,
        Expression::List(vec![Expression::Number(0)]),
    ]);
    assert_eq!(render(&e), "(+ -12 \"s\" true nil (0))");
    assert_eq!(render(&Expression::Number(i64::MIN)), "-9223372036854775808");
    assert_eq!(render(&Expression::Boolean(false)), "false");
    assert_eq!(render(&Expression::List(vec![])), "()");
}

#[test]
fn scan_parse_evaluate_render() {
    let src = "(define (square n) (* n n)) (square 4)";
    let r = linked::evaluator::evaluate(parse(scan(src)));
    assert_eq!(render(&r), "16");
}

#[test]
fn unicode_letters_make_names() {
    assert_forest(parse(toks(&["é1", "1a"])), vec![sym("é1"), Expression::Nil]);
}
