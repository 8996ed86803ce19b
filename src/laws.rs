//! Properties of evaluation as a whole.
use crate::semantics::{apply_spec, bind_params, cond_from, define_spec, eval, eval_list, eval_seq, fold_product, fold_sum, numbers_of, op_of, residue_of, sym, Op, Scopes};
use crate::types::Term;
use vstd::prelude::*;

verus! {

/// A number, a boolean or `Nil` evaluates to itself and leaves the
/// environment as it was.
pub proof fn lemma_values_are_reduced(env: Scopes, t: Term, d: nat)
    requires
        t is Number || t is Boolean || t is Nil,
    ensures
        eval(env, t, d) == (env, t),
{
}

/// The terms of the numbers `ns`.
pub open spec fn numerals(ns: Seq<i64>) -> Seq<Term> {
    ns.map_values(|n: i64| Term::Number(n))
}

proof fn lemma_numerals_split(ns: Seq<i64>)
    ensures
        numbers_of(numerals(ns)) == ns,
        residue_of(numerals(ns)) == Seq::<Term>::empty(),
    decreases ns.len(),
{
    if ns.len() > 0 {
        lemma_numerals_split(ns.drop_last());
        assert(numerals(ns).drop_last() =~= numerals(ns.drop_last()));
        assert(numbers_of(numerals(ns)) =~= ns);
    } else {
        assert(numbers_of(numerals(ns)) =~= ns);
    }
}

proof fn lemma_numerals_evaluate(env: Scopes, ns: Seq<i64>, d: nat)
    ensures
        eval_seq(env, numerals(ns), d) == (env, numerals(ns)),
    decreases ns.len(),
{
    if ns.len() > 0 {
        lemma_numerals_evaluate(env, ns.drop_last(), d);
        assert(numerals(ns).drop_last() =~= numerals(ns.drop_last()));
        assert(numerals(ns.drop_last()).push(Term::Number(ns.last())) =~= numerals(ns));
        assert(numerals(ns).last() == Term::Number(ns.last()));
        assert(eval(env, Term::Number(ns.last()), d) == (env, Term::Number(ns.last())));
        assert(eval_seq(env, numerals(ns), d) == (env, numerals(ns.drop_last()).push(
            Term::Number(ns.last()),
        )));
    } else {
        assert(numerals(ns) =~= Seq::<Term>::empty());
    }
}

/// With numbers alone as operands, `+`, `*`, `-` and `/` give one number:
/// the sum or product folded from the left, and for `-` and `/` the first
/// operand less the sum, or divided by the product, of the others (the
/// negation, or the reciprocal, where there is one operand). This holds
/// wherever the arithmetic stays within `i64` and no division by zero occurs.
pub proof fn lemma_numeric_arithmetic(env: Scopes, ns: Seq<i64>, d: nat)
    requires
        d >= 1,
    ensures
        fold_sum(ns) is Some ==> eval(env, Term::List(seq![sym(seq!['+'])] + numerals(ns)), d)
            == (env, Term::Number(fold_sum(ns)->0)),
        fold_product(ns) is Some ==> eval(env, Term::List(seq![sym(seq!['*'])] + numerals(ns)), d)
            == (env, Term::Number(fold_product(ns)->0)),
        ns.len() == 1 && 0i64.checked_sub(ns[0]) is Some ==> eval(
            env,
            Term::List(seq![sym(seq!['-'])] + numerals(ns)),
            d,
        ) == (env, Term::Number(0i64.checked_sub(ns[0])->0)),
        ns.len() == 1 && 1i64.checked_div(ns[0]) is Some ==> eval(
            env,
            Term::List(seq![sym(seq!['/'])] + numerals(ns)),
            d,
        ) == (env, Term::Number(1i64.checked_div(ns[0])->0)),
        ns.len() >= 2 && fold_sum(ns.drop_first()) is Some && ns[0].checked_sub(
            fold_sum(ns.drop_first())->0,
        ) is Some ==> eval(env, Term::List(seq![sym(seq!['-'])] + numerals(ns)), d) == (
            env,
            Term::Number(ns[0].checked_sub(fold_sum(ns.drop_first())->0)->0),
        ),
        ns.len() >= 2 && fold_product(ns.drop_first()) is Some && ns[0].checked_div(
            fold_product(ns.drop_first())->0,
        ) is Some ==> eval(env, Term::List(seq![sym(seq!['/'])] + numerals(ns)), d) == (
            env,
            Term::Number(ns[0].checked_div(fold_product(ns.drop_first())->0)->0),
        ),
{
    let ops = numerals(ns);
    lemma_numerals_split(ns);
    lemma_numerals_evaluate(env, ns, (d - 1) as nat);
    if ns.len() >= 2 {
        lemma_numerals_split(ns.drop_first());
        assert(ops.drop_first() =~= numerals(ns.drop_first()));
    }
    let c = seq![sym(seq!['+']), sym(seq!['*']), sym(seq!['-']), sym(seq!['/'])];
    assert forall|k: int| 0 <= k < 4 implies (seq![c[k]] + ops).drop_first() == ops by {
        assert((seq![c[k]] + ops).drop_first() =~= ops);
    }
    assert((seq![sym(seq!['+'])] + ops).drop_first() =~= ops);
    assert((seq![sym(seq!['*'])] + ops).drop_first() =~= ops);
    assert((seq![sym(seq!['-'])] + ops).drop_first() =~= ops);
    assert((seq![sym(seq!['/'])] + ops).drop_first() =~= ops);
    assert(seq!['*'][0] != seq!['+'][0]);
    assert(seq!['-'][0] != seq!['+'][0] && seq!['-'][0] != seq!['*'][0]);
    assert(seq!['/'][0] != seq!['+'][0] && seq!['/'][0] != seq!['*'][0] && seq!['/'][0]
        != seq!['-'][0]);
    assert(op_of(seq!['+']) == Op::Add);
    assert(op_of(seq!['*']) == Op::Mul);
    assert(op_of(seq!['-']) == Op::Sub);
    assert(op_of(seq!['/']) == Op::Div);
}

/// `(= a a)` for a name `a` that nothing binds is true.
pub proof fn lemma_free_symbol_equals_itself(env: Scopes, a: Seq<char>, d: nat)
    requires
        crate::env::env_find(env, a) is None,
        d >= 1,
    ensures
        eval(env, Term::List(seq![sym(seq!['=']), sym(a), sym(a)]), d) == (env, Term::Boolean(true)),
{
    let items = seq![sym(seq!['=']), sym(a), sym(a)];
    let ops = items.drop_first();
    let e = (d - 1) as nat;
    assert(ops =~= seq![sym(a), sym(a)]);
    assert(seq!['='][0] != seq!['+'][0] && seq!['='][0] != seq!['-'][0] && seq!['='][0]
        != seq!['*'][0] && seq!['='][0] != seq!['/'][0]);
    assert(op_of(seq!['=']) == Op::Eq);
    assert(ops.drop_last() =~= seq![sym(a)]);
    assert(ops.drop_last().drop_last() =~= Seq::<Term>::empty());
    let one = seq![sym(a)];
    assert(one.drop_last() =~= Seq::<Term>::empty());
    assert(one.last() == sym(a));
    assert(eval_seq(env, one.drop_last(), e) == (env, Seq::<Term>::empty()));
    assert(crate::semantics::symbols_of(one.drop_last()) == Seq::<Seq<char>>::empty());
    assert(crate::semantics::literals_of(one.drop_last()) == Seq::<Term>::empty());
    assert(eval(env, sym(a), e) == (env, sym(a)));
    assert(eval_seq(env, seq![sym(a)], e) == (env, seq![sym(a)]));
    assert(eval_seq(env, ops, e) == (env, ops));
    let syms = crate::semantics::symbols_of(ops);
    assert(crate::semantics::symbols_of(ops.drop_last()) =~= seq![a]);
    assert(syms =~= seq![a, a]);
    assert(crate::semantics::literals_of(ops.drop_last()) =~= Seq::<Term>::empty());
    assert(crate::semantics::literals_of(ops) =~= Seq::<Term>::empty());
    assert(syms.drop_last() =~= seq![a]);
    assert(seq![a].drop_last() =~= Seq::<Seq<char>>::empty());
    assert(crate::semantics::dedup(seq![a].drop_last()) == Seq::<Seq<char>>::empty());
    assert(crate::semantics::dedup(seq![a]) =~= seq![a]);
    assert(seq![a].contains(a)) by {
        assert(seq![a][0] == a);
    }
    assert(crate::semantics::dedup(syms) =~= seq![a]);
}

/// `=` is false where two of its operands that are not symbols differ,
/// whatever symbols stand beside them.
pub proof fn lemma_literal_mismatch_is_false(ops: Seq<Term>, i: int)
    requires
        0 <= i < crate::semantics::literals_of(ops).len(),
        crate::semantics::literals_of(ops)[i] != crate::semantics::literals_of(ops)[0],
    ensures
        crate::semantics::eq_result(ops) == Term::Boolean(false),
{
    lemma_literals_len(ops);
}

proof fn lemma_literals_len(ts: Seq<Term>)
    ensures
        crate::semantics::literals_of(ts).len() <= ts.len(),
    decreases ts.len(),
{
    if ts.len() > 0 {
        lemma_literals_len(ts.drop_last());
    }
}

proof fn lemma_bind_params_len(env: Scopes, params: Seq<Seq<char>>, vals: Seq<Term>, k: nat)
    requires
        env.len() >= 1,
    ensures
        bind_params(env, params, vals, k).len() == env.len(),
    decreases k,
{
    if k > 0 {
        lemma_bind_params_len(env, params, vals, (k - 1) as nat);
    }
}

/// Evaluation leaves as many scopes as it found: every scope that an
/// application opens is closed again, and the global scope stays.
pub proof fn lemma_scopes_balanced(env: Scopes, t: Term, d: nat)
    requires
        env.len() >= 1,
    ensures
        eval(env, t, d).0.len() == env.len(),
    decreases d, 0nat,
{
    if d > 0 {
        if let Term::List(items) = t {
            lemma_list_balanced(env, items, (d - 1) as nat);
        }
    }
}

proof fn lemma_seq_balanced(env: Scopes, ts: Seq<Term>, d: nat)
    requires
        env.len() >= 1,
    ensures
        eval_seq(env, ts, d).0.len() == env.len(),
    decreases d, ts.len() + 1,
{
    if ts.len() > 0 {
        lemma_seq_balanced(env, ts.drop_last(), d);
        let (e1, _) = eval_seq(env, ts.drop_last(), d);
        lemma_scopes_balanced(e1, ts.last(), d);
    }
}

proof fn lemma_list_balanced(env: Scopes, items: Seq<Term>, d: nat)
    requires
        env.len() >= 1,
    ensures
        eval_list(env, items, d).0.len() == env.len(),
    decreases d, items.len() + 2,
{
    if items.len() > 0 && items[0] is Symbol {
        match op_of(items[0]->Symbol_0) {
            Op::Define => lemma_define_balanced(env, items, d),
            Op::Cond => if items.len() >= 2 {
                lemma_cond_balanced(env, items, 1, seq![], d);
            },
            Op::Apply => lemma_apply_balanced(env, items, d),
            _ => lemma_seq_balanced(env, items.drop_first(), d),
        }
    } else {
        lemma_seq_balanced(env, items, d);
    }
}

proof fn lemma_define_balanced(env: Scopes, items: Seq<Term>, d: nat)
    requires
        env.len() >= 1,
    ensures
        define_spec(env, items, d).0.len() == env.len(),
    decreases d, items.len() + 1,
{
    if items.len() > 2 {
        lemma_scopes_balanced(env, items[2], d);
    }
}

proof fn lemma_apply_balanced(env: Scopes, items: Seq<Term>, d: nat)
    requires
        env.len() >= 1,
    ensures
        apply_spec(env, items, d).0.len() == env.len(),
    decreases d, items.len() + 1,
{
    let name = items[0]->Symbol_0;
    if items.len() > 0 && !(crate::env::env_find(env, name) is None) {
        let b = crate::env::lookup(env, name);
        let n = crate::semantics::min(b.params.len() as int, items.len() - 1);
        lemma_seq_balanced(env, items.subrange(1, n + 1), d);
        let (e1, vals) = eval_seq(env, items.subrange(1, n + 1), d);
        lemma_bind_params_len(e1.push(seq![]), b.params, vals, n as nat);
        let e2 = bind_params(e1.push(seq![]), b.params, vals, n as nat);
        lemma_scopes_balanced(e2, b.value, d);
    }
}

proof fn lemma_cond_balanced(env: Scopes, cl: Seq<Term>, i: nat, deferred: Seq<Term>, d: nat)
    requires
        env.len() >= 1,
    ensures
        cond_from(env, cl, i, deferred, d).0.len() == env.len(),
    decreases d, cl.len() + 1 - i,
{
    if i < cl.len() {
        let c = cl[i as int];
        if c is List && c->List_0.len() == 2 {
            lemma_scopes_balanced(env, c->List_0[0], d);
            let (e1, chk) = eval(env, c->List_0[0], d);
            lemma_scopes_balanced(e1, c->List_0[1], d);
            lemma_cond_balanced(e1, cl, i + 1, deferred.push(c), d);
            lemma_cond_balanced(e1, cl, i + 1, deferred, d);
        } else {
            lemma_cond_balanced(env, cl, i + 1, deferred.push(c), d);
        }
    }
}

} // verus!
