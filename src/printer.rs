//! Renders an expression as text.
use crate::scanner::string_push;
use crate::types::{lemma_terms_of, terms_of, Expression, Term};
use vstd::prelude::*;

verus! {

broadcast use {vstd::seq::group_seq_axioms, vstd::std_specs::vec::group_vec_axioms};

pub open spec fn digit_char(d: int) -> char {
    if d == 0 {
        '0'
    } else if d == 1 {
        '1'
    } else if d == 2 {
        '2'
    } else if d == 3 {
        '3'
    } else if d == 4 {
        '4'
    } else if d == 5 {
        '5'
    } else if d == 6 {
        '6'
    } else if d == 7 {
        '7'
    } else if d == 8 {
        '8'
    } else {
        '9'
    }
}

/// The decimal digits of `u`, most significant first.
pub open spec fn digits_of(u: nat) -> Seq<char>
    decreases u,
{
    if u < 10 {
        seq![digit_char(u as int)]
    } else {
        digits_of(u / 10).push(digit_char((u % 10) as int))
    }
}

/// `n` in decimal, with a leading `-` where it is negative.
pub open spec fn decimal_text(n: int) -> Seq<char> {
    if n < 0 {
        seq!['-'] + digits_of((-n) as nat)
    } else {
        digits_of(n as nat)
    }
}

/// The text of the elements of a list, separated by single spaces.
pub open spec fn render_seq(ts: Seq<Term>) -> Seq<char>
    decreases ts,
{
    if ts.len() == 0 {
        seq![]
    } else if ts.len() == 1 {
        render_spec(ts[0])
    } else {
        render_seq(ts.subrange(0, ts.len() - 1)) + seq![' '] + render_spec(ts[ts.len() - 1])
    }
}

/// The text of `t`: symbols as they are, numbers in decimal, strings in
/// double quotes, lists in parentheses, `true`, `false` and `nil`.
pub open spec fn render_spec(t: Term) -> Seq<char>
    decreases t,
{
    match t {
        Term::Symbol(s) => s,
        Term::Number(n) => decimal_text(n as int),
        Term::Str(s) => seq!['"'] + s + seq!['"'],
        Term::Boolean(b) => if b {
            seq!['t', 'r', 'u', 'e']
        } else {
            seq!['f', 'a', 'l', 's', 'e']
        },
        Term::List(ts) => seq!['('] + render_seq(ts) + seq![')'],
        Term::Nil => seq!['n', 'i', 'l'],
        _ => seq![],
    }
}

fn push_digits(u: u64, s: &mut String)
    ensures
        final(s)@ == old(s)@ + digits_of(u as nat),
    decreases u,
{
    if u >= 10 {
        push_digits(u / 10, s);
    }
    let d = u % 10;
    let c = if d == 0 {
        '0'
    } else if d == 1 {
        '1'
    } else if d == 2 {
        '2'
    } else if d == 3 {
        '3'
    } else if d == 4 {
        '4'
    } else if d == 5 {
        '5'
    } else if d == 6 {
        '6'
    } else if d == 7 {
        '7'
    } else if d == 8 {
        '8'
    } else {
        '9'
    };
    string_push(s, c);
    if u >= 10 {
        assert(s@ =~= old(s)@ + digits_of(u as nat));
    } else {
        assert(s@ =~= old(s)@ + digits_of(u as nat));
    }
}

fn push_str(out: &mut String, s: &String)
    ensures
        final(out)@ == old(out)@ + s@,
{
    let v = crate::scanner::chars_of(s.as_str());
    let mut i: usize = 0;
    while i < v.len()
        invariant
            i <= v.len(),
            v@ == s@,
            out@ == old(out)@ + s@.subrange(0, i as int),
        decreases v.len() - i,
    {
        string_push(out, v[i]);
        assert(out@ =~= old(out)@ + s@.subrange(0, i + 1));
        i = i + 1;
    }
    assert(s@.subrange(0, s@.len() as int) =~= s@);
}

fn push_word(out: &mut String, w: &[char])
    ensures
        final(out)@ == old(out)@ + w@,
{
    let mut i: usize = 0;
    while i < w.len()
        invariant
            i <= w.len(),
            out@ == old(out)@ + w@.subrange(0, i as int),
        decreases w.len() - i,
    {
        string_push(out, w[i]);
        assert(out@ =~= old(out)@ + w@.subrange(0, i + 1));
        i = i + 1;
    }
    assert(w@.subrange(0, w@.len() as int) =~= w@);
}

/// Appends the text of `e` to `out`.
pub fn render_into(e: &Expression, out: &mut String)
    ensures
        final(out)@ == old(out)@ + render_spec(e@),
    decreases e,
{
    match e {
        Expression::Symbol(s) => push_str(out, s),
        Expression::Number(n) => {
            if *n < 0 {
                string_push(out, '-');
                let u: u64 = if *n == i64::MIN {
                    9223372036854775808u64
                } else {
                    (-*n) as u64
                };
                push_digits(u, out);
            } else {
                push_digits(*n as u64, out);
            }
            assert(out@ =~= old(out)@ + render_spec(e@));
        },
        Expression::String(s) => {
            string_push(out, '"');
            push_str(out, s);
            string_push(out, '"');
            assert(out@ =~= old(out)@ + render_spec(e@));
        },
        Expression::Boolean(b) => {
            if *b {
                push_word(out, &['t', 'r', 'u', 'e']);
                assert(['t', 'r', 'u', 'e']@ =~= seq!['t', 'r', 'u', 'e']);
            } else {
                push_word(out, &['f', 'a', 'l', 's', 'e']);
                assert(['f', 'a', 'l', 's', 'e']@ =~= seq!['f', 'a', 'l', 's', 'e']);
            }
        },
        Expression::List(v) => {
            string_push(out, '(');
            let ghost start = out@;
            let ghost ts = terms_of(v@);
            proof {
                lemma_terms_of(v@);
                assert(ts.subrange(0, 0) =~= Seq::<Term>::empty());
                assert(out@ =~= start + render_seq(ts.subrange(0, 0)));
            }
            let mut i: usize = 0;
            while i < v.len()
                invariant
                    i <= v.len(),
                    *e == Expression::List(*v),
                    ts == terms_of(v@),
                    ts.len() == v.len(),
                    forall|j: int| 0 <= j < v.len() ==> #[trigger] ts[j] == v@[j]@,
                    out@ == start + render_seq(ts.subrange(0, i as int)),
                decreases v.len() - i,
            {
                proof {
                    assert(decreases_to!(*e => e->List_0));
                    assert(decreases_to!(e->List_0 => e->List_0@));
                    assert(decreases_to!(e->List_0@ => e->List_0@[i as int]));
                }
                let ghost sub = ts.subrange(0, i + 1);
                assert(sub.subrange(0, i as int) =~= ts.subrange(0, i as int));
                assert(sub[i as int] == v@[i as int]@);
                if i > 0 {
                    string_push(out, ' ');
                } else {
                    assert(out@ =~= start);
                }
                render_into(&v[i], out);
                assert(out@ =~= start + render_seq(sub));
                i = i + 1;
            }
            string_push(out, ')');
            assert(ts.subrange(0, v.len() as int) =~= ts);
            assert(out@ =~= old(out)@ + render_spec(e@));
        },
        Expression::Nil => {
            push_word(out, &['n', 'i', 'l']);
            assert(['n', 'i', 'l']@ =~= seq!['n', 'i', 'l']);
        },
        _ => {
            assert(out@ =~= old(out)@ + render_spec(e@));
        },
    }
}

/// The text of `e`.
pub fn render(e: &Expression) -> (r: String)
    ensures
        r@ == render_spec(e@),
{
    let mut out = String::new();
    render_into(e, &mut out);
    assert(out@ =~= render_spec(e@));
    out
}

} // verus!
