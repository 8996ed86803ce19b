//! The meaning of evaluation, stated over the models of expressions and of
//! the environment.
use crate::env::{bind_in, env_find, lookup, pop_spec, Binding};
use crate::types::Term;
use vstd::prelude::*;

verus! {

/// The model of an environment: its scopes, the global scope first.
pub type Scopes = Seq<Seq<(Seq<char>, Binding)>>;

/// The built-in forms, and application of a named function.
pub enum Op {
    Add,
    Sub,
    Mul,
    Div,
    Eq,
    Define,
    Cond,
    Apply,
}

pub open spec fn op_of(name: Seq<char>) -> Op {
    if name == seq!['+'] {
        Op::Add
    } else if name == seq!['-'] {
        Op::Sub
    } else if name == seq!['*'] {
        Op::Mul
    } else if name == seq!['/'] {
        Op::Div
    } else if name == seq!['='] {
        Op::Eq
    } else if name == seq!['d', 'e', 'f', 'i', 'n', 'e'] {
        Op::Define
    } else if name == seq!['c', 'o', 'n', 'd'] {
        Op::Cond
    } else {
        Op::Apply
    }
}

pub open spec fn sym(name: Seq<char>) -> Term {
    Term::Symbol(name)
}

/// The numbers among `ts`, in order.
pub open spec fn numbers_of(ts: Seq<Term>) -> Seq<i64>
    decreases ts.len(),
{
    if ts.len() == 0 {
        seq![]
    } else {
        let p = numbers_of(ts.drop_last());
        match ts.last() {
            Term::Number(n) => p.push(n),
            _ => p,
        }
    }
}

/// The operands among `ts` that are not numbers, in order.
pub open spec fn residue_of(ts: Seq<Term>) -> Seq<Term>
    decreases ts.len(),
{
    if ts.len() == 0 {
        seq![]
    } else {
        let p = residue_of(ts.drop_last());
        match ts.last() {
            Term::Number(_) => p,
            _ => p.push(ts.last()),
        }
    }
}

/// The sum of `ns` from the left, or `None` where a partial sum leaves `i64`.
pub open spec fn fold_sum(ns: Seq<i64>) -> Option<i64>
    decreases ns.len(),
{
    if ns.len() == 0 {
        Some(0)
    } else {
        match fold_sum(ns.drop_last()) {
            Some(a) => a.checked_add(ns.last()),
            None => None,
        }
    }
}

/// The product of `ns` from the left, or `None` where a partial product
/// leaves `i64`.
pub open spec fn fold_product(ns: Seq<i64>) -> Option<i64>
    decreases ns.len(),
{
    if ns.len() == 0 {
        Some(1)
    } else {
        match fold_product(ns.drop_last()) {
            Some(a) => a.checked_mul(ns.last()),
            None => None,
        }
    }
}

/// `x` as a one-element sequence, or nothing where it is the identity `id`.
pub open spec fn unless_identity(x: i64, id: i64) -> Seq<Term> {
    if x == id {
        seq![]
    } else {
        seq![Term::Number(x)]
    }
}

/// `+` and `*` on evaluated operands: the numbers folded, the rest kept.
pub open spec fn commutative_result(op: Seq<char>, ops: Seq<Term>, fold: Option<i64>, id: i64) -> Term {
    let res = residue_of(ops);
    match fold {
        None => Term::List(seq![sym(op)] + ops),
        Some(total) => if res.len() == 0 {
            Term::Number(total)
        } else {
            Term::List(seq![sym(op)] + unless_identity(total, id) + res)
        },
    }
}

pub open spec fn add_result(ops: Seq<Term>) -> Term {
    commutative_result(seq!['+'], ops, fold_sum(numbers_of(ops)), 0)
}

pub open spec fn mul_result(ops: Seq<Term>) -> Term {
    commutative_result(seq!['*'], ops, fold_product(numbers_of(ops)), 1)
}

/// `-` and `/` on evaluated operands. `unary` gives the value of the form
/// with one numeric operand, `combine` that of a numeric base and the fold.
pub open spec fn base_result(
    op: Seq<char>,
    ops: Seq<Term>,
    unary: spec_fn(i64) -> Option<i64>,
    combine: spec_fn(i64, i64) -> Option<i64>,
    fold: Option<i64>,
    id: i64,
) -> Term {
    let form = Term::List(seq![sym(op)] + ops);
    if ops.len() == 0 {
        form
    } else if ops.len() == 1 {
        match ops[0] {
            Term::Number(n) => match unary(n) {
                Some(v) => Term::Number(v),
                None => form,
            },
            _ => form,
        }
    } else {
        let res = residue_of(ops.drop_first());
        match fold {
            None => form,
            Some(f) => match ops[0] {
                Term::Number(n) => if res.len() == 0 {
                    match combine(n, f) {
                        Some(v) => Term::Number(v),
                        None => form,
                    }
                } else {
                    Term::List(seq![sym(op), Term::Number(n), Term::Number(f)])
                },
                _ => Term::List(seq![sym(op), ops[0]] + res + unless_identity(f, id)),
            },
        }
    }
}

pub open spec fn sub_result(ops: Seq<Term>) -> Term {
    base_result(
        seq!['-'],
        ops,
        |n: i64| 0i64.checked_sub(n),
        |a: i64, b: i64| a.checked_sub(b),
        fold_sum(numbers_of(ops.drop_first())),
        0,
    )
}

pub open spec fn div_result(ops: Seq<Term>) -> Term {
    base_result(
        seq!['/'],
        ops,
        |n: i64| 1i64.checked_div(n),
        |a: i64, b: i64| a.checked_div(b),
        fold_product(numbers_of(ops.drop_first())),
        1,
    )
}

/// The names of the symbols among `ts`, in order.
pub open spec fn symbols_of(ts: Seq<Term>) -> Seq<Seq<char>>
    decreases ts.len(),
{
    if ts.len() == 0 {
        seq![]
    } else {
        let p = symbols_of(ts.drop_last());
        match ts.last() {
            Term::Symbol(s) => p.push(s),
            _ => p,
        }
    }
}

/// The operands among `ts` that are not symbols, in order.
pub open spec fn literals_of(ts: Seq<Term>) -> Seq<Term>
    decreases ts.len(),
{
    if ts.len() == 0 {
        seq![]
    } else {
        let p = literals_of(ts.drop_last());
        match ts.last() {
            Term::Symbol(_) => p,
            _ => p.push(ts.last()),
        }
    }
}

/// `ns` with each name kept at its first occurrence only.
pub open spec fn dedup(ns: Seq<Seq<char>>) -> Seq<Seq<char>>
    decreases ns.len(),
{
    if ns.len() == 0 {
        seq![]
    } else {
        let p = dedup(ns.drop_last());
        if p.contains(ns.last()) {
            p
        } else {
            p.push(ns.last())
        }
    }
}

pub open spec fn all_equal(ts: Seq<Term>) -> bool {
    forall|i: int| 0 <= i < ts.len() ==> #[trigger] ts[i] == ts[0]
}

/// `=` on evaluated operands.
pub open spec fn eq_result(ops: Seq<Term>) -> Term {
    if ops.len() == 0 {
        Term::List(seq![sym(seq!['='])])
    } else if ops.len() == 1 {
        Term::Boolean(true)
    } else {
        let syms = symbols_of(ops);
        let lits = literals_of(ops);
        if !all_equal(lits) {
            Term::Boolean(false)
        } else if syms.len() == 0 {
            Term::Boolean(true)
        } else {
            let d = dedup(syms);
            if d.len() == 1 && lits.len() == 0 {
                Term::Boolean(true)
            } else {
                Term::List(
                    seq![sym(seq!['='])] + (if lits.len() > 0 {
                        seq![lits[0]]
                    } else {
                        seq![]
                    }) + d.map_values(|n: Seq<char>| sym(n)),
                )
            }
        }
    }
}

pub open spec fn all_symbols(ts: Seq<Term>) -> bool {
    forall|i: int| 0 <= i < ts.len() ==> ts[i] is Symbol
}

pub open spec fn names_of(ts: Seq<Term>) -> Seq<Seq<char>> {
    ts.map_values(|t: Term| t->Symbol_0)
}

/// Binds the first `k` parameters to the first `k` values, in the innermost scope.
pub open spec fn bind_params(env: Scopes, params: Seq<Seq<char>>, vals: Seq<Term>, k: nat) -> Scopes
    decreases k,
{
    if k == 0 {
        env
    } else {
        let e = bind_params(env, params, vals, (k - 1) as nat);
        bind_in(e, e.len() - 1, params[k - 1], Binding { params: seq![], value: vals[k - 1] })
    }
}

pub open spec fn min(a: int, b: int) -> int {
    if a < b {
        a
    } else {
        b
    }
}

/// Evaluates `t` under `env`, nesting at most `d` levels deep: the new
/// environment and the value. What lies deeper than `d` stays as it is.
pub open spec fn eval(env: Scopes, t: Term, d: nat) -> (Scopes, Term)
    decreases d, 0nat,
{
    if d == 0 {
        (env, t)
    } else {
        match t {
            Term::Symbol(n) => (env, lookup(env, n).value),
            Term::List(items) => eval_list(env, items, (d - 1) as nat),
            _ => (env, t),
        }
    }
}

/// Evaluates each of `ts` in turn, threading the environment.
pub open spec fn eval_seq(env: Scopes, ts: Seq<Term>, d: nat) -> (Scopes, Seq<Term>)
    decreases d, ts.len() + 1,
{
    if ts.len() == 0 {
        (env, seq![])
    } else {
        let (e1, p) = eval_seq(env, ts.drop_last(), d);
        let (e2, t) = eval(e1, ts.last(), d);
        (e2, p.push(t))
    }
}

/// Evaluates a list form.
pub open spec fn eval_list(env: Scopes, items: Seq<Term>, d: nat) -> (Scopes, Term)
    decreases d, items.len() + 2,
{
    if items.len() > 0 && items[0] is Symbol {
        let ops = items.drop_first();
        match op_of(items[0]->Symbol_0) {
            Op::Add => {
                let (e, vs) = eval_seq(env, ops, d);
                (e, add_result(vs))
            },
            Op::Sub => {
                let (e, vs) = eval_seq(env, ops, d);
                (e, sub_result(vs))
            },
            Op::Mul => {
                let (e, vs) = eval_seq(env, ops, d);
                (e, mul_result(vs))
            },
            Op::Div => {
                let (e, vs) = eval_seq(env, ops, d);
                (e, div_result(vs))
            },
            Op::Eq => {
                let (e, vs) = eval_seq(env, ops, d);
                (e, eq_result(vs))
            },
            Op::Define => define_spec(env, items, d),
            Op::Cond => if items.len() < 2 {
                (env, Term::List(items))
            } else {
                cond_from(env, items, 1, seq![], d)
            },
            Op::Apply => apply_spec(env, items, d),
        }
    } else {
        let (e, vs) = eval_seq(env, items, d);
        (e, Term::List(vs))
    }
}

/// `(define name body)` and `(define (name params...) body)`: the body is
/// evaluated as it stands and bound globally.
pub open spec fn define_spec(env: Scopes, items: Seq<Term>, d: nat) -> (Scopes, Term)
    decreases d, items.len() + 1,
{
    if items.len() <= 2 {
        (env, Term::List(items))
    } else {
        match items[1] {
            Term::Symbol(n) => {
                let (e, v) = eval(env, items[2], d);
                (bind_in(e, 0, n, Binding { params: seq![], value: v }), v)
            },
            Term::List(ts) => if ts.len() > 0 && all_symbols(ts) {
                let (e, v) = eval(env, items[2], d);
                (
                    bind_in(
                        e,
                        0,
                        ts[0]->Symbol_0,
                        Binding { params: names_of(ts.drop_first()), value: v },
                    ),
                    v,
                )
            } else {
                (env, Term::List(items))
            },
            _ => (env, Term::List(items)),
        }
    }
}

/// Application of a named function: its arguments are evaluated, bound to
/// its parameters in a new scope, and its stored value evaluated there.
pub open spec fn apply_spec(env: Scopes, items: Seq<Term>, d: nat) -> (Scopes, Term)
    decreases d, items.len() + 1,
{
    let name = items[0]->Symbol_0;
    if items.len() == 0 || env_find(env, name) is None {
        (env, Term::List(items))
    } else {
        let b = lookup(env, name);
        let n = min(b.params.len() as int, items.len() - 1);
        let (e1, vals) = eval_seq(env, items.subrange(1, n + 1), d);
        let e2 = bind_params(e1.push(seq![]), b.params, vals, n as nat);
        let (e3, r) = eval(e2, b.value, d);
        (pop_spec(e3), r)
    }
}

/// `cond` from clause `i` on, with the clauses deferred so far.
pub open spec fn cond_from(env: Scopes, cl: Seq<Term>, i: nat, deferred: Seq<Term>, d: nat) -> (
    Scopes,
    Term,
)
    decreases d, cl.len() + 1 - i,
{
    if i >= cl.len() {
        if deferred.len() > 0 {
            (env, Term::List(seq![sym(seq!['c', 'o', 'n', 'd']), Term::List(deferred)]))
        } else {
            (env, Term::Nil)
        }
    } else {
        let c = cl[i as int];
        if c is List && c->List_0.len() == 2 {
            let (e1, chk) = eval(env, c->List_0[0], d);
            if chk == Term::Boolean(true) {
                if deferred.len() == 0 {
                    eval(e1, c->List_0[1], d)
                } else {
                    cond_from(e1, cl, i + 1, deferred.push(c), d)
                }
            } else if chk == Term::Boolean(false) {
                cond_from(e1, cl, i + 1, deferred, d)
            } else {
                cond_from(e1, cl, i + 1, deferred.push(c), d)
            }
        } else {
            cond_from(env, cl, i + 1, deferred.push(c), d)
        }
    }
}

/// Evaluates the top-level expressions `ts` in turn with one environment:
/// the environment after them and the value of the last (`Nil` for none).
pub open spec fn run(env: Scopes, ts: Seq<Term>, d: nat) -> (Scopes, Term)
    decreases ts.len(),
{
    if ts.len() == 0 {
        (env, Term::Nil)
    } else {
        let (e, _) = run(env, ts.drop_last(), d);
        eval(e, ts.last(), d)
    }
}

} // verus!
