//! Expressions and their mathematical model.
use vstd::prelude::*;

verus! {

broadcast use {vstd::std_specs::vec::group_vec_axioms, vstd::seq::group_seq_axioms};

/// An expression tree. A number is a signed 64-bit integer.
#[derive(Debug)]
pub enum Expression {
    Symbol(String),
    Number(i64),
    String(String),
    Boolean(bool),
    Quote(Box<Expression>),
    Unquote(Box<Expression>),
    List(Vec<Expression>),
    Nil,
}

/// The mathematical model of an expression.
pub enum Term {
    Symbol(Seq<char>),
    Number(i64),
    Str(Seq<char>),
    Boolean(bool),
    Quote(Box<Term>),
    Unquote(Box<Term>),
    List(Seq<Term>),
    Nil,
}

impl View for Expression {
    type V = Term;

    open spec fn view(&self) -> Term
        decreases self,
    {
        match self {
            Expression::Symbol(s) => Term::Symbol(s@),
            Expression::Number(n) => Term::Number(*n),
            Expression::String(s) => Term::Str(s@),
            Expression::Boolean(b) => Term::Boolean(*b),
            Expression::Quote(e) => Term::Quote(Box::new((**e).view())),
            Expression::Unquote(e) => Term::Unquote(Box::new((**e).view())),
            Expression::List(v) => Term::List(terms_of(v@)),
            Expression::Nil => Term::Nil,
        }
    }
}

/// The models of a sequence of expressions, element by element.
pub open spec fn terms_of(s: Seq<Expression>) -> Seq<Term>
    decreases s,
{
    if s.len() == 0 {
        seq![]
    } else {
        terms_of(s.subrange(0, s.len() - 1)).push(s[s.len() - 1]@)
    }
}

/// `terms_of` models each element in place.
pub broadcast proof fn lemma_terms_of(s: Seq<Expression>)
    ensures
        #[trigger] terms_of(s).len() == s.len(),
        forall|i: int| 0 <= i < s.len() ==> #[trigger] terms_of(s)[i] == s[i]@,
    decreases s.len(),
{
    if s.len() > 0 {
        let p = s.subrange(0, s.len() - 1);
        lemma_terms_of(p);
        assert(terms_of(s) == terms_of(p).push(s[s.len() - 1]@));
    } else {
        assert(terms_of(s) == Seq::<Term>::empty());
    }
}

/// Pushing an expression pushes its model.
pub broadcast proof fn lemma_terms_push(s: Seq<Expression>, x: Expression)
    ensures
        #[trigger] terms_of(s.push(x)) == terms_of(s).push(x@),
{
    assert(s.push(x).subrange(0, s.len() as int) =~= s);
}

pub broadcast group group_terms {
    lemma_terms_push,
    lemma_terms_of,
}

/// Element-wise equal models give equal sequences of models.
pub proof fn lemma_terms_eq(a: Seq<Expression>, b: Seq<Expression>)
    requires
        a.len() == b.len(),
        forall|i: int| 0 <= i < a.len() ==> (#[trigger] a[i])@ == b[i]@,
    ensures
        terms_of(a) == terms_of(b),
{
    lemma_terms_of(a);
    lemma_terms_of(b);
    assert(terms_of(a) =~= terms_of(b));
}

impl Expression {
    /// A deep copy.
    pub fn copy(&self) -> (r: Expression)
        ensures
            r@ == self@,
        decreases self,
    {
        match self {
            Expression::Symbol(s) => Expression::Symbol(s.clone()),
            Expression::Number(n) => Expression::Number(*n),
            Expression::String(s) => Expression::String(s.clone()),
            Expression::Boolean(b) => Expression::Boolean(*b),
            Expression::Quote(e) => Expression::Quote(Box::new((**e).copy())),
            Expression::Unquote(e) => Expression::Unquote(Box::new((**e).copy())),
            Expression::List(v) => {
                let mut w: Vec<Expression> = Vec::new();
                let mut i: usize = 0;
                while i < v.len()
                    invariant
                        i <= v.len(),
                        *self == Expression::List(*v),
                        w.len() == i,
                        forall|j: int| 0 <= j < i ==> (#[trigger] w@[j])@ == v@[j]@,
                    decreases v.len() - i,
                {
                    proof {
                        assert(decreases_to!(*self => self->List_0));
                        assert(decreases_to!(self->List_0 => self->List_0@));
                        assert(decreases_to!(self->List_0@ => self->List_0@[i as int]));
                    }
                    w.push(v[i].copy());
                    i = i + 1;
                }
                proof {
                    lemma_terms_eq(w@, v@);
                }
                Expression::List(w)
            },
            Expression::Nil => Expression::Nil,
        }
    }

    /// Structural equality of the two models.
    pub fn equals(&self, other: &Expression) -> (r: bool)
        ensures
            r == (self@ == other@),
        decreases self,
    {
        match (self, other) {
            (Expression::Symbol(a), Expression::Symbol(b)) => *a == *b,
            (Expression::Number(a), Expression::Number(b)) => *a == *b,
            (Expression::String(a), Expression::String(b)) => *a == *b,
            (Expression::Boolean(a), Expression::Boolean(b)) => *a == *b,
            (Expression::Quote(a), Expression::Quote(b)) => (**a).equals(&**b),
            (Expression::Unquote(a), Expression::Unquote(b)) => (**a).equals(&**b),
            (Expression::List(a), Expression::List(b)) => {
                if a.len() != b.len() {
                    proof {
                        lemma_terms_of(a@);
                        lemma_terms_of(b@);
                        assert(terms_of(a@).len() != terms_of(b@).len());
                    }
                    return false;
                }
                let mut i: usize = 0;
                while i < a.len()
                    invariant
                        i <= a.len(),
                        a.len() == b.len(),
                        *self == Expression::List(*a),
                        *other == Expression::List(*b),
                        forall|j: int| 0 <= j < i ==> (#[trigger] a@[j])@ == b@[j]@,
                    decreases a.len() - i,
                {
                    proof {
                        assert(decreases_to!(*self => self->List_0));
                        assert(decreases_to!(self->List_0 => self->List_0@));
                        assert(decreases_to!(self->List_0@ => self->List_0@[i as int]));
                    }
                    if !a[i].equals(&b[i]) {
                        proof {
                            lemma_terms_of(a@);
                        lemma_terms_of(b@);
                        assert(terms_of(a@)[i as int] != terms_of(b@)[i as int]);
                        }
                        return false;
                    }
                    i = i + 1;
                }
                proof {
                    lemma_terms_eq(a@, b@);
                }
                true
            },
            (Expression::Nil, Expression::Nil) => true,
            _ => false,
        }
    }
}

} // verus!
