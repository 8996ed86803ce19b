//! The scoped environment: a stack of scopes, the global scope first.
use crate::scanner::views_of;
use crate::types::{Expression, Term};
use vstd::prelude::*;

verus! {

/// What a name is bound to: a parameter list (empty for a simple variable)
/// and a value.
pub struct Binding {
    pub params: Seq<Seq<char>>,
    pub value: Term,
}

/// The latest binding of `name` in one scope.
pub open spec fn scope_find(sc: Seq<(Seq<char>, Binding)>, name: Seq<char>) -> Option<Binding>
    decreases sc.len(),
{
    if sc.len() == 0 {
        None
    } else if sc.last().0 == name {
        Some(sc.last().1)
    } else {
        scope_find(sc.drop_last(), name)
    }
}

/// The binding of `name` seen from the innermost scope outwards.
pub open spec fn env_find(scopes: Seq<Seq<(Seq<char>, Binding)>>, name: Seq<char>) -> Option<
    Binding,
>
    decreases scopes.len(),
{
    if scopes.len() == 0 {
        None
    } else {
        match scope_find(scopes.last(), name) {
            Some(b) => Some(b),
            None => env_find(scopes.drop_last(), name),
        }
    }
}

/// The binding that a lookup of `name` yields: an unbound name stands for
/// itself, with no parameters.
pub open spec fn lookup(scopes: Seq<Seq<(Seq<char>, Binding)>>, name: Seq<char>) -> Binding {
    match env_find(scopes, name) {
        Some(b) => b,
        None => Binding { params: seq![], value: Term::Symbol(name) },
    }
}

/// The scopes after binding `name` in scope `i`.
pub open spec fn bind_in(
    scopes: Seq<Seq<(Seq<char>, Binding)>>,
    i: int,
    name: Seq<char>,
    b: Binding,
) -> Seq<Seq<(Seq<char>, Binding)>> {
    scopes.update(i, scope_bind(scopes[i], name, b))
}

/// Where the latest binding of `name` stands in one scope.
pub open spec fn scope_index(sc: Seq<(Seq<char>, Binding)>, name: Seq<char>) -> Option<int>
    decreases sc.len(),
{
    if sc.len() == 0 {
        None
    } else if sc.last().0 == name {
        Some(sc.len() - 1)
    } else {
        scope_index(sc.drop_last(), name)
    }
}

/// One scope after binding `name`: an existing binding of it is
/// overwritten in place, else the binding is added.
pub open spec fn scope_bind(sc: Seq<(Seq<char>, Binding)>, name: Seq<char>, b: Binding) -> Seq<
    (Seq<char>, Binding),
> {
    match scope_index(sc, name) {
        Some(k) => sc.update(k, (name, b)),
        None => sc.push((name, b)),
    }
}

/// The scopes after the innermost one is removed; the global scope stays.
pub open spec fn pop_spec(scopes: Seq<Seq<(Seq<char>, Binding)>>) -> Seq<Seq<(Seq<char>, Binding)>> {
    if scopes.len() > 1 {
        scopes.drop_last()
    } else {
        scopes
    }
}

struct Entry {
    name: String,
    params: Vec<String>,
    value: Expression,
}

impl Entry {
    spec fn model(&self) -> (Seq<char>, Binding) {
        (self.name@, Binding { params: views_of(self.params@), value: self.value@ })
    }
}

spec fn scope_model(sc: Seq<Entry>) -> Seq<(Seq<char>, Binding)> {
    sc.map_values(|e: Entry| e.model())
}

/// A stack of scopes, innermost last.
pub struct Environment {
    scopes: Vec<Vec<Entry>>,
}

fn copy_strings(v: &Vec<String>) -> (r: Vec<String>)
    ensures
        views_of(r@) == views_of(v@),
{
    let mut r: Vec<String> = Vec::new();
    let mut i: usize = 0;
    while i < v.len()
        invariant
            i <= v.len(),
            r.len() == i,
            forall|j: int| 0 <= j < i ==> (#[trigger] r@[j])@ == v@[j]@,
        decreases v.len() - i,
    {
        r.push(v[i].clone());
        i = i + 1;
    }
    assert(views_of(r@) =~= views_of(v@));
    r
}

proof fn lemma_scope_index_range(sc: Seq<(Seq<char>, Binding)>, name: Seq<char>)
    ensures
        scope_index(sc, name) is Some ==> 0 <= scope_index(sc, name)->0 < sc.len(),
    decreases sc.len(),
{
    if sc.len() > 0 {
        lemma_scope_index_range(sc.drop_last(), name);
    }
}

proof fn lemma_find_by_index(sc: Seq<(Seq<char>, Binding)>, name: Seq<char>)
    ensures
        scope_find(sc, name) == (match scope_index(sc, name) {
            Some(k) => Some(sc[k].1),
            None => None,
        }),
    decreases sc.len(),
{
    if sc.len() > 0 {
        lemma_find_by_index(sc.drop_last(), name);
        lemma_scope_index_range(sc.drop_last(), name);
    }
}

/// Where the latest entry named `s` stands in `sc`.
fn index_in(sc: &Vec<Entry>, s: &String) -> (r: Option<usize>)
    ensures
        r == (match scope_index(scope_model(sc@), s@) {
            Some(k) => Some(k as usize),
            None => None,
        }),
        r is Some ==> r->0 < sc.len(),
{
    let ghost scm = scope_model(sc@);
    let mut j: usize = sc.len();
    assert(scm.subrange(0, j as int) =~= scm);
    while j > 0
        invariant
            j <= sc.len(),
            scm == scope_model(sc@),
            scope_index(scm, s@) == scope_index(scm.subrange(0, j as int), s@),
        decreases j,
    {
        assert(scm.subrange(0, j as int).drop_last() =~= scm.subrange(0, j - 1));
        assert(scm.subrange(0, j as int).last() == scm[j - 1]);
        if sc[j - 1].name == *s {
            return Some(j - 1);
        }
        j = j - 1;
    }
    assert(scm.subrange(0, 0) =~= Seq::<(Seq<char>, Binding)>::empty());
    None
}

/// `sc` with the entry `e` bound in it.
fn bind_entry(sc: &mut Vec<Entry>, e: Entry)
    ensures
        scope_model(final(sc)@) == scope_bind(scope_model(old(sc)@), e.model().0, e.model().1),
{
    let ghost em = e.model();
    proof {
        lemma_scope_index_range(scope_model(sc@), e.name@);
    }
    match index_in(sc, &e.name) {
        Some(k) => {
            sc.set(k, e);
            assert(scope_model(sc@) =~= scope_model(old(sc)@).update(k as int, em));
        },
        None => {
            sc.push(e);
            assert(scope_model(sc@) =~= scope_model(old(sc)@).push(em));
        },
    }
}

impl View for Environment {
    type V = Seq<Seq<(Seq<char>, Binding)>>;

    closed spec fn view(&self) -> Seq<Seq<(Seq<char>, Binding)>> {
        self.scopes@.map_values(|sc: Vec<Entry>| scope_model(sc@))
    }
}

impl Environment {
    /// At least the global scope is there.
    pub open spec fn wf(&self) -> bool {
        self@.len() >= 1
    }

    /// A new environment with one empty global scope.
    pub fn new() -> (r: Environment)
        ensures
            r@ == seq![Seq::<(Seq<char>, Binding)>::empty()],
            r.wf(),
    {
        let mut env = Environment { scopes: Vec::new() };
        env.add_scope();
        assert(env@ =~= seq![Seq::<(Seq<char>, Binding)>::empty()]);
        env
    }

    /// Where the binding of `s` that a lookup sees is stored.
    fn find(&self, s: &String) -> (r: Option<(usize, usize)>)
        ensures
            match r {
                None => env_find(self@, s@) is None,
                Some((i, j)) => i < self@.len() && j < self@[i as int].len() && env_find(
                    self@,
                    s@,
                ) == Some(self@[i as int][j as int].1),
            },
    {
        let mut i: usize = self.scopes.len();
        assert(self@.subrange(0, i as int) =~= self@);
        while i > 0
            invariant
                i <= self.scopes.len(),
                self@.len() == self.scopes.len(),
                env_find(self@, s@) == env_find(self@.subrange(0, i as int), s@),
            decreases i,
        {
            let sc = &self.scopes[i - 1];
            let ghost scm = scope_model(sc@);
            assert(self@[i - 1] == scm);
            assert(self@.subrange(0, i as int).last() == scm);
            assert(self@.subrange(0, i as int).drop_last() =~= self@.subrange(0, i - 1));
            proof {
                lemma_find_by_index(scm, s@);
                lemma_scope_index_range(scm, s@);
            }
            if let Some(j) = index_in(sc, s) {
                return Some((i - 1, j));
            }
            i = i - 1;
        }
        assert(self@.subrange(0, 0) =~= Seq::<Seq<(Seq<char>, Binding)>>::empty());
        None
    }

    /// Whether some scope binds `s`.
    pub fn is_defined(&self, s: &str) -> (r: bool)
        ensures
            r == (env_find(self@, s@) is Some),
    {
        let name = s.to_owned();
        self.find(&name).is_some()
    }

    /// The parameters and the value that `s` is bound to, innermost scope
    /// first; an unbound name gives no parameters and itself as a symbol.
    pub fn get(&self, s: &str) -> (r: (Vec<String>, Expression))
        ensures
            views_of(r.0@) == lookup(self@, s@).params,
            r.1@ == lookup(self@, s@).value,
    {
        let name = s.to_owned();
        match self.find(&name) {
            Some((i, j)) => {
                let e = &self.scopes[i][j];
                (copy_strings(&e.params), e.value.copy())
            },
            None => {
                let r: Vec<String> = Vec::new();
                assert(views_of(r@) =~= seq![]);
                (r, Expression::Symbol(name))
            },
        }
    }

    /// Binds `s` in the innermost scope.
    pub fn local_push(&mut self, s: String, params: Vec<String>, e: Expression)
        requires
            old(self).wf(),
        ensures
            final(self)@ == bind_in(
                old(self)@,
                old(self)@.len() - 1,
                s@,
                Binding { params: views_of(params@), value: e@ },
            ),
    {
        let mut sc = self.scopes.pop().unwrap();
        let ghost entry = Entry { name: s, params, value: e };
        bind_entry(&mut sc, Entry { name: s, params, value: e });
        self.scopes.push(sc);
        assert(self@ =~= bind_in(old(self)@, old(self)@.len() - 1, entry.model().0, entry.model().1));
    }

    /// Binds `s` in the global scope.
    pub fn global_push(&mut self, s: String, params: Vec<String>, e: Expression)
        requires
            old(self).wf(),
        ensures
            final(self)@ == bind_in(
                old(self)@,
                0,
                s@,
                Binding { params: views_of(params@), value: e@ },
            ),
    {
        let mut sc = self.scopes.remove(0);
        let ghost entry = Entry { name: s, params, value: e };
        bind_entry(&mut sc, Entry { name: s, params, value: e });
        self.scopes.insert(0, sc);
        assert(self@ =~= bind_in(old(self)@, 0, entry.model().0, entry.model().1));
    }

    /// Removes the innermost scope; the global scope is never removed.
    pub fn pop_scope(&mut self)
        ensures
            final(self)@ == pop_spec(old(self)@),
    {
        if self.scopes.len() > 1 {
            self.scopes.pop();
            assert(self@ =~= old(self)@.drop_last());
        }
    }

    /// Adds a new, empty innermost scope.
    pub fn add_scope(&mut self)
        ensures
            final(self)@ == old(self)@.push(seq![]),
    {
        let sc: Vec<Entry> = Vec::new();
        self.scopes.push(sc);
        assert(scope_model(sc@) =~= seq![]);
        assert(self@ =~= old(self)@.push(seq![]));
    }
}

} // verus!
