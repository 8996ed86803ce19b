//! The evaluator: dispatch on the form, the built-in forms that evaluate as
//! they go (`define`, `cond`), and application of defined functions.
use crate::env::{Binding, Environment};
use crate::reduce::{reduce_subtraction, reduce_equality, reduce_multiplication, reduce_division, reduce_addition};
use crate::scanner::{chars_of, string_push, views_of};
use crate::semantics::{
    all_symbols, apply_spec, bind_params, cond_from, define_spec, eval, eval_list, eval_seq,
    names_of, op_of, run, sym, Op, Scopes,
};
use crate::types::{lemma_terms_of, terms_of, Expression, Term};
use vstd::prelude::*;

verus! {

broadcast use {crate::types::group_terms, vstd::seq::group_seq_axioms};

/// How deeply evaluation nests before it leaves an expression as it is.
pub const MAX_DEPTH: usize = 512;

/// Which built-in form, if any, the name `s` stands for.
pub fn operator_of(s: &String) -> (r: Op)
    ensures
        r == op_of(s@),
{
    let v = chars_of(s.as_str());
    if v.len() == 1 {
        let c = v[0];
        assert(v@ =~= seq![c]);
        if c == '+' {
            return Op::Add;
        } else if c == '-' {
            return Op::Sub;
        } else if c == '*' {
            return Op::Mul;
        } else if c == '/' {
            return Op::Div;
        } else if c == '=' {
            return Op::Eq;
        }
    } else if v.len() == 6 && v[0] == 'd' && v[1] == 'e' && v[2] == 'f' && v[3] == 'i' && v[4]
        == 'n' && v[5] == 'e' {
        assert(v@ =~= seq!['d', 'e', 'f', 'i', 'n', 'e']);
        return Op::Define;
    } else if v.len() == 4 && v[0] == 'c' && v[1] == 'o' && v[2] == 'n' && v[3] == 'd' {
        assert(v@ =~= seq!['c', 'o', 'n', 'd']);
        return Op::Cond;
    }
    Op::Apply
}

proof fn lemma_eval_seq_len(env: Scopes, ts: Seq<Term>, d: nat)
    ensures
        eval_seq(env, ts, d).1.len() == ts.len(),
    decreases ts.len(),
{
    if ts.len() > 0 {
        lemma_eval_seq_len(env, ts.drop_last(), d);
    }
}

/// The form itself, unevaluated.
fn copy_list(items: &Vec<Expression>) -> (r: Expression)
    ensures
        r@ == Term::List(terms_of(items@)),
{
    let mut v: Vec<Expression> = Vec::new();
    let mut i: usize = 0;
    proof {
        lemma_terms_of(items@);
    }
    while i < items.len()
        invariant
            i <= items.len(),
            v.len() == i,
            forall|j: int| 0 <= j < i ==> (#[trigger] v@[j])@ == items@[j]@,
        decreases items.len() - i,
    {
        v.push(items[i].copy());
        i = i + 1;
    }
    proof {
        crate::types::lemma_terms_eq(v@, items@);
    }
    Expression::List(v)
}

/// Evaluates `e` under `env`, nesting at most `d` levels deep.
pub fn evaluate_expression(e: &Expression, env: &mut Environment, d: usize) -> (r: Expression)
    requires
        old(env).wf(),
    ensures
        final(env).wf(),
        final(env)@.len() == old(env)@.len(),
        (final(env)@, r@) == eval(old(env)@, e@, d as nat),
    decreases d, 0nat,
{
    if d == 0 {
        return e.copy();
    }
    match e {
        Expression::Symbol(s) => {
            let (_, v) = env.get(s.as_str());
            v
        },
        Expression::List(items) => evaluate_list(items, env, d - 1),
        _ => e.copy(),
    }
}

/// Evaluates `items[lo..hi]` in turn.
pub fn evaluate_operands(
    items: &Vec<Expression>,
    lo: usize,
    hi: usize,
    env: &mut Environment,
    d: usize,
) -> (r: Vec<Expression>)
    requires
        lo <= hi <= items.len(),
        old(env).wf(),
    ensures
        final(env).wf(),
        final(env)@.len() == old(env)@.len(),
        (final(env)@, terms_of(r@)) == eval_seq(
            old(env)@,
            terms_of(items@).subrange(lo as int, hi as int),
            d as nat,
        ),
    decreases d, hi - lo + 1,
{
    let mut out: Vec<Expression> = Vec::new();
    let mut i: usize = lo;
    proof {
        lemma_terms_of(items@);
        assert(terms_of(items@).subrange(lo as int, lo as int) =~= Seq::<Term>::empty());
        assert(terms_of(out@) =~= Seq::<Term>::empty());
    }
    while i < hi
        invariant
            lo <= i <= hi <= items.len(),
            env.wf(),
            env@.len() == old(env)@.len(),
            terms_of(items@).len() == items.len(),
            forall|j: int| 0 <= j < items.len() ==> #[trigger] terms_of(items@)[j] == items@[j]@,
            (env@, terms_of(out@)) == eval_seq(
                old(env)@,
                terms_of(items@).subrange(lo as int, i as int),
                d as nat,
            ),
        decreases hi - i,
    {
        let ghost t = terms_of(items@);
        assert(t.subrange(lo as int, i + 1).drop_last() =~= t.subrange(lo as int, i as int));
        assert(t.subrange(lo as int, i + 1).last() == items@[i as int]@);
        let v = evaluate_expression(&items[i], env, d);
        out.push(v);
        i = i + 1;
    }
    out
}

/// Evaluates a list form: a built-in form, an application, or otherwise
/// each element in turn.
pub fn evaluate_list(items: &Vec<Expression>, env: &mut Environment, d: usize) -> (r: Expression)
    requires
        old(env).wf(),
    ensures
        final(env).wf(),
        final(env)@.len() == old(env)@.len(),
        (final(env)@, r@) == eval_list(old(env)@, terms_of(items@), d as nat),
    decreases d, items.len() + 2,
{
    proof {
        lemma_terms_of(items@);
    }
    if items.len() > 0 {
        if let Expression::Symbol(s) = &items[0] {
            let op = operator_of(s);
            let ghost t = terms_of(items@);
            assert(t.drop_first() =~= t.subrange(1, t.len() as int));
            match op {
                Op::Add => {
                    let vs = evaluate_operands(items, 1, items.len(), env, d);
                    return reduce_addition(&vs);
                },
                Op::Sub => {
                    let vs = evaluate_operands(items, 1, items.len(), env, d);
                    return reduce_subtraction(&vs);
                },
                Op::Mul => {
                    let vs = evaluate_operands(items, 1, items.len(), env, d);
                    return reduce_multiplication(&vs);
                },
                Op::Div => {
                    let vs = evaluate_operands(items, 1, items.len(), env, d);
                    return reduce_division(&vs);
                },
                Op::Eq => {
                    let vs = evaluate_operands(items, 1, items.len(), env, d);
                    return reduce_equality(&vs);
                },
                Op::Define => {
                    return evaluate_define(items, env, d);
                },
                Op::Cond => {
                    return evaluate_cond(items, env, d);
                },
                Op::Apply => {
                    return apply(items, s, env, d);
                },
            }
        }
    }
    let vs = evaluate_operands(items, 0, items.len(), env, d);
    assert(terms_of(items@).subrange(0, items.len() as int) =~= terms_of(items@));
    Expression::List(vs)
}

/// The names of `ts`, or `None` where one of them is not a symbol.
fn symbol_names(ts: &Vec<Expression>) -> (r: Option<Vec<String>>)
    ensures
        r is Some <==> all_symbols(terms_of(ts@)),
        r is Some ==> views_of(r->0@) == names_of(terms_of(ts@)),
{
    let mut names: Vec<String> = Vec::new();
    let mut i: usize = 0;
    proof {
        lemma_terms_of(ts@);
    }
    while i < ts.len()
        invariant
            i <= ts.len(),
            terms_of(ts@).len() == ts.len(),
            forall|j: int| 0 <= j < ts.len() ==> #[trigger] terms_of(ts@)[j] == ts@[j]@,
            names.len() == i,
            forall|j: int| 0 <= j < i ==> (#[trigger] terms_of(ts@)[j]) is Symbol,
            forall|j: int|
                0 <= j < i ==> (#[trigger] names@[j])@ == terms_of(ts@)[j]->Symbol_0,
        decreases ts.len() - i,
    {
        match &ts[i] {
            Expression::Symbol(s) => names.push(s.clone()),
            _ => {
                assert(!(terms_of(ts@)[i as int] is Symbol));
                return None;
            },
        }
        i = i + 1;
    }
    assert(views_of(names@) =~= names_of(terms_of(ts@)));
    Some(names)
}

/// `(define name body)` and `(define (name params...) body)`.
pub fn evaluate_define(items: &Vec<Expression>, env: &mut Environment, d: usize) -> (r: Expression)
    requires
        old(env).wf(),
    ensures
        final(env).wf(),
        final(env)@.len() == old(env)@.len(),
        (final(env)@, r@) == define_spec(old(env)@, terms_of(items@), d as nat),
    decreases d, items.len() + 1,
{
    proof {
        lemma_terms_of(items@);
    }
    if items.len() <= 2 {
        return copy_list(items);
    }
    match &items[1] {
        Expression::Symbol(s) => {
            let v = evaluate_expression(&items[2], env, d);
            let params: Vec<String> = Vec::new();
            assert(views_of(params@) =~= seq![]);
            env.global_push(s.clone(), params, v.copy());
            v
        },
        Expression::List(ts) => {
            match symbol_names(ts) {
                Some(mut names) => {
                    proof {
                        lemma_terms_of(ts@);
                        assert(views_of(names@).len() == names@.len());
                    }
                    if names.len() == 0 {
                        return copy_list(items);
                    }
                    let ghost all = names@;
                    let name = names.remove(0);
                    assert(names@ =~= all.subrange(1, all.len() as int));
                    let ghost t = terms_of(ts@);
                    assert(views_of(all) == names_of(t));
                    assert forall|j: int| 0 <= j < names.len() implies views_of(names@)[j]
                        == names_of(t.drop_first())[j] by {
                        assert(views_of(all)[j + 1] == names_of(t)[j + 1]);
                    }
                    assert(views_of(names@) =~= names_of(t.drop_first()));
                    assert(views_of(all)[0] == names_of(t)[0]);
                    assert(name@ == t[0]->Symbol_0);
                    let v = evaluate_expression(&items[2], env, d);
                    env.global_push(name, names, v.copy());
                    v
                },
                None => copy_list(items),
            }
        },
        _ => copy_list(items),
    }
}

/// Application of the function named `name`, which heads `items`.
pub fn apply(items: &Vec<Expression>, name: &String, env: &mut Environment, d: usize) -> (r: Expression)
    requires
        old(env).wf(),
        items.len() > 0,
        items@[0]@ == Term::Symbol(name@),
    ensures
        final(env).wf(),
        final(env)@.len() == old(env)@.len(),
        (final(env)@, r@) == apply_spec(old(env)@, terms_of(items@), d as nat),
    decreases d, items.len() + 1,
{
    proof {
        lemma_terms_of(items@);
    }
    if !env.is_defined(name.as_str()) {
        return copy_list(items);
    }
    let (params, template) = env.get(name.as_str());
    let n: usize = if params.len() < items.len() - 1 {
        params.len()
    } else {
        items.len() - 1
    };
    let vals = evaluate_operands(items, 1, n + 1, env, d);
    let ghost e1 = env@;
    env.add_scope();
    proof {
        lemma_terms_of(vals@);
        lemma_eval_seq_len(
            old(env)@,
            terms_of(items@).subrange(1, n + 1),
            d as nat,
        );
    }
    let mut k: usize = 0;
    while k < n
        invariant
            k <= n <= params.len(),
            n == vals.len(),
            terms_of(vals@).len() == vals.len(),
            forall|j: int| 0 <= j < vals.len() ==> #[trigger] terms_of(vals@)[j] == vals@[j]@,
            env@ == bind_params(e1.push(seq![]), views_of(params@), terms_of(vals@), k as nat),
            env@.len() == e1.len() + 1,
            env.wf(),
        decreases n - k,
    {
        let no_params: Vec<String> = Vec::new();
        assert(views_of(no_params@) =~= seq![]);
        env.local_push(params[k].clone(), no_params, vals[k].copy());
        k = k + 1;
    }
    let r = evaluate_expression(&template, env, d);
    env.pop_scope();
    r
}

/// `cond`: the value of the first clause whose condition holds, where no
/// undecided clause comes before it.
pub fn evaluate_cond(items: &Vec<Expression>, env: &mut Environment, d: usize) -> (r: Expression)
    requires
        old(env).wf(),
    ensures
        final(env).wf(),
        final(env)@.len() == old(env)@.len(),
        (final(env)@, r@) == (if items.len() < 2 {
            (old(env)@, Term::List(terms_of(items@)))
        } else {
            cond_from(old(env)@, terms_of(items@), 1, seq![], d as nat)
        }),
    decreases d, items.len() + 1,
{
    proof {
        lemma_terms_of(items@);
    }
    if items.len() < 2 {
        return copy_list(items);
    }
    let mut deferred: Vec<Expression> = Vec::new();
    let mut i: usize = 1;
    assert(terms_of(deferred@) =~= seq![]);
    while i < items.len()
        invariant
            1 <= i <= items.len(),
            env.wf(),
            env@.len() == old(env)@.len(),
            terms_of(items@).len() == items.len(),
            forall|j: int| 0 <= j < items.len() ==> #[trigger] terms_of(items@)[j] == items@[j]@,
            cond_from(old(env)@, terms_of(items@), 1, seq![], d as nat) == cond_from(
                env@,
                terms_of(items@),
                i as nat,
                terms_of(deferred@),
                d as nat,
            ),
        decreases items.len() - i,
    {
        match &items[i] {
            Expression::List(l) => {
                if l.len() == 2 {
                    proof {
                        lemma_terms_of(l@);
                    }
                    let check = evaluate_expression(&l[0], env, d);
                    match check {
                        Expression::Boolean(true) => {
                            if deferred.len() == 0 {
                                return evaluate_expression(&l[1], env, d);
                            } else {
                                deferred.push(items[i].copy());
                            }
                        },
                        Expression::Boolean(false) => {},
                        _ => {
                            deferred.push(items[i].copy());
                        },
                    }
                } else {
                    proof {
                        lemma_terms_of(l@);
                    }
                    deferred.push(items[i].copy());
                }
            },
            _ => {
                deferred.push(items[i].copy());
            },
        }
        i = i + 1;
    }
    if deferred.len() > 0 {
        let mut s = String::new();
        string_push(&mut s, 'c');
        string_push(&mut s, 'o');
        string_push(&mut s, 'n');
        string_push(&mut s, 'd');
        assert(s@ =~= seq!['c', 'o', 'n', 'd']);
        let mut v: Vec<Expression> = Vec::new();
        v.push(Expression::Symbol(s));
        v.push(Expression::List(deferred));
        assert(terms_of(v@) =~= seq![sym(seq!['c', 'o', 'n', 'd']), Term::List(terms_of(deferred@))]);
        Expression::List(v)
    } else {
        Expression::Nil
    }
}

/// An evaluation session: one environment shared by the expressions
/// evaluated in it, so that definitions persist from one to the next.
pub struct Evaluator {
    env: Environment,
}

impl Evaluator {
    /// The model of the session's environment.
    pub closed spec fn scopes(&self) -> Scopes {
        self.env@
    }

    /// A session with one empty global scope.
    pub fn new() -> (r: Evaluator)
        ensures
            r.scopes() == seq![Seq::<(Seq<char>, Binding)>::empty()],
    {
        Evaluator { env: Environment::new() }
    }

    /// Evaluates one top-level expression in this session.
    pub fn evaluate_next(&mut self, e: &Expression) -> (r: Expression)
        requires
            old(self).scopes().len() >= 1,
        ensures
            final(self).scopes().len() == old(self).scopes().len(),
            (final(self).scopes(), r@) == eval(old(self).scopes(), e@, MAX_DEPTH as nat),
    {
        evaluate_expression(e, &mut self.env, MAX_DEPTH)
    }
}

/// Evaluates the top-level expressions in turn, with one environment that
/// starts with an empty global scope, and returns the value of the last
/// (`Nil` where there is none).
pub fn evaluate(expressions: Vec<Expression>) -> (r: Expression)
    ensures
        r@ == run(
            seq![Seq::<(Seq<char>, Binding)>::empty()],
            terms_of(expressions@),
            MAX_DEPTH as nat,
        ).1,
{
    let mut eval = Evaluator::new();
    let mut e = Expression::Nil;
    let mut i: usize = 0;
    let ghost t = terms_of(expressions@);
    proof {
        lemma_terms_of(expressions@);
        assert(t.subrange(0, 0) =~= Seq::<Term>::empty());
    }
    while i < expressions.len()
        invariant
            i <= expressions.len(),
            t == terms_of(expressions@),
            t.len() == expressions.len(),
            forall|j: int| 0 <= j < expressions.len() ==> #[trigger] t[j] == expressions@[j]@,
            eval.scopes().len() >= 1,
            (eval.scopes(), e@) == run(
                seq![Seq::<(Seq<char>, Binding)>::empty()],
                t.subrange(0, i as int),
                MAX_DEPTH as nat,
            ),
        decreases expressions.len() - i,
    {
        assert(t.subrange(0, i + 1).drop_last() =~= t.subrange(0, i as int));
        assert(t.subrange(0, i + 1).last() == expressions@[i as int]@);
        e = eval.evaluate_next(&expressions[i]);
        i = i + 1;
    }
    assert(t.subrange(0, expressions.len() as int) =~= t);
    e
}

} // verus!
