//! The arithmetic and equality rules, on operands already evaluated.
use crate::scanner::{string_push, views_of};
use crate::semantics::{add_result, all_equal, dedup, eq_result, literals_of, symbols_of, sub_result, div_result, commutative_result, fold_product, fold_sum, mul_result, numbers_of, residue_of, sym, unless_identity};
use crate::types::{lemma_terms_of, terms_of, Expression, Term};
use vstd::prelude::*;

verus! {

broadcast use {crate::types::group_terms, vstd::seq::group_seq_axioms};

/// The symbol named by the one char `c`.
pub fn char_symbol(c: char) -> (r: Expression)
    ensures
        r@ == Term::Symbol(seq![c]),
{
    let mut s = String::new();
    string_push(&mut s, c);
    assert(s@ =~= seq![c]);
    Expression::Symbol(s)
}

/// Appends copies of `src[lo..hi]` to `out`.
pub fn extend_copies(out: &mut Vec<Expression>, src: &Vec<Expression>, lo: usize, hi: usize)
    requires
        lo <= hi <= src.len(),
    ensures
        terms_of(final(out)@) == terms_of(old(out)@) + terms_of(src@).subrange(lo as int, hi as int),
{
    let mut i: usize = lo;
    while i < hi
        invariant
            lo <= i <= hi <= src.len(),
            terms_of(out@) == terms_of(old(out)@) + terms_of(src@).subrange(lo as int, i as int),
        decreases hi - i,
    {
        proof {
            lemma_terms_of(src@);
        }
        out.push(src[i].copy());
        assert(terms_of(src@).subrange(lo as int, i + 1) =~= terms_of(src@).subrange(
            lo as int,
            i as int,
        ).push(src@[i as int]@));
        assert(terms_of(out@) =~= terms_of(old(out)@) + terms_of(src@).subrange(lo as int, i + 1));
        i = i + 1;
    }
}

/// The form `(c ops...)` with the operands left as they are.
pub fn form_of(c: char, ops: &Vec<Expression>) -> (r: Expression)
    ensures
        r@ == Term::List(seq![sym(seq![c])] + terms_of(ops@)),
{
    let mut v: Vec<Expression> = Vec::new();
    v.push(char_symbol(c));
    extend_copies(&mut v, ops, 0, ops.len());
    assert(terms_of(ops@).subrange(0, ops.len() as int) =~= terms_of(ops@));
    assert(terms_of(v@) =~= seq![sym(seq![c])] + terms_of(ops@));
    Expression::List(v)
}

/// The numbers and the other operands of `ops[lo..]`.
pub fn split_numbers(ops: &Vec<Expression>, lo: usize) -> (r: (Vec<i64>, Vec<Expression>))
    requires
        lo <= ops.len(),
    ensures
        r.0@ == numbers_of(terms_of(ops@).subrange(lo as int, ops.len() as int)),
        terms_of(r.1@) == residue_of(terms_of(ops@).subrange(lo as int, ops.len() as int)),
{
    let mut nums: Vec<i64> = Vec::new();
    let mut rest: Vec<Expression> = Vec::new();
    let mut i: usize = lo;
    while i < ops.len()
        invariant
            lo <= i <= ops.len(),
            nums@ == numbers_of(terms_of(ops@).subrange(lo as int, i as int)),
            terms_of(rest@) == residue_of(terms_of(ops@).subrange(lo as int, i as int)),
        decreases ops.len() - i,
    {
        let ghost t = terms_of(ops@);
        proof {
            lemma_terms_of(ops@);
        }
        assert(t.subrange(lo as int, i + 1).drop_last() =~= t.subrange(lo as int, i as int));
        assert(t.subrange(lo as int, i + 1).last() == ops@[i as int]@);
        match &ops[i] {
            Expression::Number(n) => nums.push(*n),
            _ => rest.push(ops[i].copy()),
        }
        i = i + 1;
    }
    (nums, rest)
}

/// The sum of `ns` from the left, `None` on overflow.
pub fn sum_of(ns: &Vec<i64>) -> (r: Option<i64>)
    ensures
        r == fold_sum(ns@),
{
    let mut acc: i64 = 0;
    let mut i: usize = 0;
    while i < ns.len()
        invariant
            i <= ns.len(),
            fold_sum(ns@.subrange(0, i as int)) == Some(acc),
        decreases ns.len() - i,
    {
        assert(ns@.subrange(0, i + 1).drop_last() =~= ns@.subrange(0, i as int));
        match acc.checked_add(ns[i]) {
            Some(a) => acc = a,
            None => {
                proof {
                    lemma_fold_sum_none(ns@, i as int + 1);
                }
                return None;
            },
        }
        i = i + 1;
    }
    assert(ns@.subrange(0, ns.len() as int) =~= ns@);
    Some(acc)
}

proof fn lemma_fold_sum_none(ns: Seq<i64>, k: int)
    requires
        0 <= k <= ns.len(),
        fold_sum(ns.subrange(0, k)) is None,
    ensures
        fold_sum(ns) is None,
    decreases ns.len() - k,
{
    if k < ns.len() {
        assert(ns.subrange(0, k + 1).drop_last() =~= ns.subrange(0, k));
        lemma_fold_sum_none(ns, k + 1);
    } else {
        assert(ns.subrange(0, k) =~= ns);
    }
}

proof fn lemma_fold_product_none(ns: Seq<i64>, k: int)
    requires
        0 <= k <= ns.len(),
        fold_product(ns.subrange(0, k)) is None,
    ensures
        fold_product(ns) is None,
    decreases ns.len() - k,
{
    if k < ns.len() {
        assert(ns.subrange(0, k + 1).drop_last() =~= ns.subrange(0, k));
        lemma_fold_product_none(ns, k + 1);
    } else {
        assert(ns.subrange(0, k) =~= ns);
    }
}

/// The product of `ns` from the left, `None` on overflow.
pub fn product_of(ns: &Vec<i64>) -> (r: Option<i64>)
    ensures
        r == fold_product(ns@),
{
    let mut acc: i64 = 1;
    let mut i: usize = 0;
    while i < ns.len()
        invariant
            i <= ns.len(),
            fold_product(ns@.subrange(0, i as int)) == Some(acc),
        decreases ns.len() - i,
    {
        assert(ns@.subrange(0, i + 1).drop_last() =~= ns@.subrange(0, i as int));
        match acc.checked_mul(ns[i]) {
            Some(a) => acc = a,
            None => {
                proof {
                    lemma_fold_product_none(ns@, i as int + 1);
                }
                return None;
            },
        }
        i = i + 1;
    }
    assert(ns@.subrange(0, ns.len() as int) =~= ns@);
    Some(acc)
}

/// `+` (when `c` is `'+'`, folding by sum) or `*` (folding by product) on
/// evaluated operands.
fn combine_commutative(c: char, ops: &Vec<Expression>, fold: Option<i64>, res: Vec<Expression>, id: i64) -> (r: Expression)
    requires
        terms_of(res@) == residue_of(terms_of(ops@)),
    ensures
        r@ == commutative_result(seq![c], terms_of(ops@), fold, id),
{
    match fold {
        None => form_of(c, ops),
        Some(total) => {
            if res.len() == 0 {
                Expression::Number(total)
            } else {
                let mut v: Vec<Expression> = Vec::new();
                v.push(char_symbol(c));
                if total != id {
                    v.push(Expression::Number(total));
                }
                assert(terms_of(v@) =~= seq![sym(seq![c])] + unless_identity(total, id));
                extend_copies(&mut v, &res, 0, res.len());
                assert(terms_of(res@).subrange(0, res.len() as int) =~= terms_of(res@));
                Expression::List(v)
            }
        },
    }
}

/// `(+ ops...)` on evaluated operands.
pub fn reduce_addition(ops: &Vec<Expression>) -> (r: Expression)
    ensures
        r@ == add_result(terms_of(ops@)),
{
    let (nums, res) = split_numbers(ops, 0);
    assert(terms_of(ops@).subrange(0, ops.len() as int) =~= terms_of(ops@));
    combine_commutative('+', ops, sum_of(&nums), res, 0)
}

/// `(* ops...)` on evaluated operands.
pub fn reduce_multiplication(ops: &Vec<Expression>) -> (r: Expression)
    ensures
        r@ == mul_result(terms_of(ops@)),
{
    let (nums, res) = split_numbers(ops, 0);
    assert(terms_of(ops@).subrange(0, ops.len() as int) =~= terms_of(ops@));
    combine_commutative('*', ops, product_of(&nums), res, 1)
}

/// `(- ops...)` on evaluated operands.
pub fn reduce_subtraction(ops: &Vec<Expression>) -> (r: Expression)
    ensures
        r@ == sub_result(terms_of(ops@)),
{
    proof {
        lemma_terms_of(ops@);
    }
    if ops.len() == 0 {
        return form_of('-', ops);
    }
    if ops.len() == 1 {
        return match &ops[0] {
            Expression::Number(n) => match 0i64.checked_sub(*n) {
                Some(v) => Expression::Number(v),
                None => form_of('-', ops),
            },
            _ => form_of('-', ops),
        };
    }
    let (nums, res) = split_numbers(ops, 1);
    assert(terms_of(ops@).drop_first() =~= terms_of(ops@).subrange(1, ops.len() as int));
    match sum_of(&nums) {
        None => form_of('-', ops),
        Some(f) => match &ops[0] {
            Expression::Number(n) => {
                if res.len() == 0 {
                    match n.checked_sub(f) {
                        Some(v) => Expression::Number(v),
                        None => form_of('-', ops),
                    }
                } else {
                    let mut v: Vec<Expression> = Vec::new();
                    v.push(char_symbol('-'));
                    v.push(Expression::Number(*n));
                    v.push(Expression::Number(f));
                    assert(terms_of(v@) =~= seq![
                        sym(seq!['-']),
                        Term::Number(*n),
                        Term::Number(f),
                    ]);
                    Expression::List(v)
                }
            },
            _ => {
                let mut v: Vec<Expression> = Vec::new();
                v.push(char_symbol('-'));
                v.push(ops[0].copy());
                extend_copies(&mut v, &res, 0, res.len());
                if f != 0 {
                    v.push(Expression::Number(f));
                }
                assert(terms_of(res@).subrange(0, res.len() as int) =~= terms_of(res@));
                assert(terms_of(v@) =~= seq![sym(seq!['-']), terms_of(ops@)[0]] + terms_of(res@)
                    + unless_identity(f, 0));
                Expression::List(v)
            },
        },
    }
}

/// `(/ ops...)` on evaluated operands.
pub fn reduce_division(ops: &Vec<Expression>) -> (r: Expression)
    ensures
        r@ == div_result(terms_of(ops@)),
{
    proof {
        lemma_terms_of(ops@);
    }
    if ops.len() == 0 {
        return form_of('/', ops);
    }
    if ops.len() == 1 {
        return match &ops[0] {
            Expression::Number(n) => match 1i64.checked_div(*n) {
                Some(v) => Expression::Number(v),
                None => form_of('/', ops),
            },
            _ => form_of('/', ops),
        };
    }
    let (nums, res) = split_numbers(ops, 1);
    assert(terms_of(ops@).drop_first() =~= terms_of(ops@).subrange(1, ops.len() as int));
    match product_of(&nums) {
        None => form_of('/', ops),
        Some(f) => match &ops[0] {
            Expression::Number(n) => {
                if res.len() == 0 {
                    match n.checked_div(f) {
                        Some(v) => Expression::Number(v),
                        None => form_of('/', ops),
                    }
                } else {
                    let mut v: Vec<Expression> = Vec::new();
                    v.push(char_symbol('/'));
                    v.push(Expression::Number(*n));
                    v.push(Expression::Number(f));
                    assert(terms_of(v@) =~= seq![
                        sym(seq!['/']),
                        Term::Number(*n),
                        Term::Number(f),
                    ]);
                    Expression::List(v)
                }
            },
            _ => {
                let mut v: Vec<Expression> = Vec::new();
                v.push(char_symbol('/'));
                v.push(ops[0].copy());
                extend_copies(&mut v, &res, 0, res.len());
                if f != 1 {
                    v.push(Expression::Number(f));
                }
                assert(terms_of(res@).subrange(0, res.len() as int) =~= terms_of(res@));
                assert(terms_of(v@) =~= seq![sym(seq!['/']), terms_of(ops@)[0]] + terms_of(res@)
                    + unless_identity(f, 1));
                Expression::List(v)
            },
        },
    }
}

/// The symbol names and the other operands of `ops`.
pub fn split_symbols(ops: &Vec<Expression>) -> (r: (Vec<String>, Vec<Expression>))
    ensures
        views_of(r.0@) == symbols_of(terms_of(ops@)),
        terms_of(r.1@) == literals_of(terms_of(ops@)),
{
    let mut names: Vec<String> = Vec::new();
    let mut lits: Vec<Expression> = Vec::new();
    let mut i: usize = 0;
    proof {
        lemma_terms_of(ops@);
        assert(views_of(names@) =~= seq![]);
    }
    while i < ops.len()
        invariant
            i <= ops.len(),
            terms_of(ops@).len() == ops.len(),
            forall|j: int| 0 <= j < ops.len() ==> #[trigger] terms_of(ops@)[j] == ops@[j]@,
            views_of(names@) == symbols_of(terms_of(ops@).subrange(0, i as int)),
            terms_of(lits@) == literals_of(terms_of(ops@).subrange(0, i as int)),
        decreases ops.len() - i,
    {
        let ghost t = terms_of(ops@);
        assert(t.subrange(0, i + 1).drop_last() =~= t.subrange(0, i as int));
        assert(t.subrange(0, i + 1).last() == ops@[i as int]@);
        match &ops[i] {
            Expression::Symbol(n) => {
                let ghost before = names@;
                names.push(n.clone());
                assert(views_of(names@) =~= views_of(before).push(n@));
            },
            _ => lits.push(ops[i].copy()),
        }
        i = i + 1;
    }
    assert(terms_of(ops@).subrange(0, ops.len() as int) =~= terms_of(ops@));
    (names, lits)
}

/// Whether `s` is among `v`.
fn contains_name(v: &Vec<String>, s: &String) -> (r: bool)
    ensures
        r == views_of(v@).contains(s@),
{
    let mut i: usize = 0;
    while i < v.len()
        invariant
            i <= v.len(),
            forall|j: int| 0 <= j < i ==> views_of(v@)[j] != s@,
        decreases v.len() - i,
    {
        if v[i] == *s {
            assert(views_of(v@)[i as int] == s@);
            return true;
        }
        i = i + 1;
    }
    false
}

/// `v` with each name kept at its first occurrence only.
pub fn dedup_names(v: &Vec<String>) -> (r: Vec<String>)
    ensures
        views_of(r@) == dedup(views_of(v@)),
{
    let mut out: Vec<String> = Vec::new();
    let mut i: usize = 0;
    assert(views_of(out@) =~= seq![]);
    while i < v.len()
        invariant
            i <= v.len(),
            views_of(out@) == dedup(views_of(v@).subrange(0, i as int)),
        decreases v.len() - i,
    {
        let ghost w = views_of(v@);
        assert(w.subrange(0, i + 1).drop_last() =~= w.subrange(0, i as int));
        assert(w.subrange(0, i + 1).last() == v@[i as int]@);
        if !contains_name(&out, &v[i]) {
            let ghost before = out@;
            out.push(v[i].clone());
            assert(views_of(out@) =~= views_of(before).push(v@[i as int]@));
        }
        i = i + 1;
    }
    assert(views_of(v@).subrange(0, v.len() as int) =~= views_of(v@));
    out
}

/// `(= ops...)` on evaluated operands.
pub fn reduce_equality(ops: &Vec<Expression>) -> (r: Expression)
    ensures
        r@ == eq_result(terms_of(ops@)),
{
    proof {
        lemma_terms_of(ops@);
    }
    if ops.len() == 0 {
        let mut v: Vec<Expression> = Vec::new();
        v.push(char_symbol('='));
        assert(terms_of(v@) =~= seq![sym(seq!['='])]);
        return Expression::List(v);
    }
    if ops.len() == 1 {
        return Expression::Boolean(true);
    }
    let (names, lits) = split_symbols(ops);
    proof {
        lemma_terms_of(lits@);
    }
    let mut i: usize = 0;
    while i < lits.len()
        invariant
            i <= lits.len(),
            ops.len() >= 2,
            terms_of(ops@).len() == ops.len(),
            terms_of(lits@) == literals_of(terms_of(ops@)),
            terms_of(lits@).len() == lits.len(),
            forall|j: int| 0 <= j < lits.len() ==> #[trigger] terms_of(lits@)[j] == lits@[j]@,
            forall|j: int| 0 <= j < i ==> #[trigger] terms_of(lits@)[j] == terms_of(lits@)[0],
        decreases lits.len() - i,
    {
        if !lits[i].equals(&lits[0]) {
            assert(terms_of(lits@)[i as int] != terms_of(lits@)[0]);
            assert(!all_equal(terms_of(lits@)));
            return Expression::Boolean(false);
        }
        i = i + 1;
    }
    if names.len() == 0 {
        return Expression::Boolean(true);
    }
    let d = dedup_names(&names);
    if d.len() == 1 && lits.len() == 0 {
        return Expression::Boolean(true);
    }
    let mut v: Vec<Expression> = Vec::new();
    v.push(char_symbol('='));
    if lits.len() > 0 {
        v.push(lits[0].copy());
    }
    let ghost head = terms_of(v@);
    let ghost dv = views_of(d@);
    let mut k: usize = 0;
    while k < d.len()
        invariant
            k <= d.len(),
            dv == views_of(d@),
            terms_of(v@) == head + dv.subrange(0, k as int).map_values(|n: Seq<char>| sym(n)),
        decreases d.len() - k,
    {
        let ghost before = v@;
        v.push(Expression::Symbol(d[k].clone()));
        assert(dv.subrange(0, k + 1).map_values(|n: Seq<char>| sym(n)) =~= dv.subrange(
            0,
            k as int,
        ).map_values(|n: Seq<char>| sym(n)).push(sym(dv[k as int])));
        assert(terms_of(v@) =~= head + dv.subrange(0, k + 1).map_values(|n: Seq<char>| sym(n)));
        k = k + 1;
    }
    assert(dv.subrange(0, d.len() as int) =~= dv);
    assert(head =~= seq![sym(seq!['='])] + (if lits.len() > 0 {
        seq![terms_of(lits@)[0]]
    } else {
        seq![]
    }));
    Expression::List(v)
}

} // verus!
