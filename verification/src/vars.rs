//! The constants of the solver that stand for the names of a function.
use std::rc::Rc;
use vstd::prelude::*;
use crate::term::{Form, Term};
use crate::text::same;

verus! {

/// A list of names with their terms, as a mathematical value.
pub type Bindings = Seq<(Seq<char>, Form)>;

/// The position of `name` in `b`, or the length where it is not bound.
pub open spec fn slot(b: Bindings, name: Seq<char>) -> int
    decreases b.len(),
{
    if b.len() == 0 {
        0
    } else if b[0].0 == name {
        0
    } else {
        1 + slot(b.skip(1), name)
    }
}

/// The term that `name` is bound to.
pub open spec fn bound(b: Bindings, name: Seq<char>) -> Option<Form> {
    if slot(b, name) < b.len() {
        Some(b[slot(b, name)].1)
    } else {
        None
    }
}

/// `b` with `name` bound to `f`.
pub open spec fn bind(b: Bindings, name: Seq<char>, f: Form) -> Bindings {
    if slot(b, name) < b.len() {
        b.update(slot(b, name), (name, f))
    } else {
        b.push((name, f))
    }
}

/// `b` without a binding of `name`.
pub open spec fn unbind(b: Bindings, name: Seq<char>) -> Bindings {
    if slot(b, name) < b.len() {
        b.remove(slot(b, name))
    } else {
        b
    }
}

/// What `name` is bound to after it was bound to `f` unless it already was to something.
pub open spec fn entry(b: Bindings, name: Seq<char>, f: Form) -> (Form, Bindings) {
    match bound(b, name) {
        Some(g) => (g, b),
        None => (f, bind(b, name, f)),
    }
}

/// `b` with `name` bound again as it was in `before`.
pub open spec fn rebind(b: Bindings, name: Seq<char>, before: Option<Form>) -> Bindings {
    match before {
        Some(f) => bind(b, name, f),
        None => unbind(b, name),
    }
}

/// No name is bound twice.
pub open spec fn distinct(b: Bindings) -> bool {
    forall|i: int, j: int| 0 <= i < j < b.len() ==> (#[trigger] b[i]).0 != (#[trigger] b[j]).0
}

/// A position is the first one of its name.
pub proof fn lemma_slot(b: Bindings, name: Seq<char>)
    ensures
        0 <= slot(b, name) <= b.len(),
        slot(b, name) < b.len() ==> b[slot(b, name)].0 == name,
        forall|i: int| 0 <= i < slot(b, name) ==> (#[trigger] b[i]).0 != name,
    decreases b.len(),
{
    if b.len() > 0 && b[0].0 != name {
        lemma_slot(b.skip(1), name);
        assert forall|i: int| 0 <= i < slot(b, name) implies (#[trigger] b[i]).0 != name by {
            if i > 0 {
                assert(b[i] == b.skip(1)[i - 1]);
            }
        }
    }
}

proof fn lemma_slot_is(b: Bindings, name: Seq<char>, k: int)
    requires
        0 <= k <= b.len(),
        forall|i: int| 0 <= i < k ==> (#[trigger] b[i]).0 != name,
        k < b.len() ==> b[k].0 == name,
    ensures
        slot(b, name) == k,
{
    lemma_slot(b, name);
    let s = slot(b, name);
    if s < k {
        assert(b[s].0 == name);
    }
    if k < s {
        assert(b[k].0 != name);
    }
}

/// What was bound is found, and binding one name leaves the others alone.
pub proof fn law_bind_then_bound(b: Bindings, name: Seq<char>, other: Seq<char>, f: Form)
    requires
        other != name,
    ensures
        bound(bind(b, name, f), name) == Some(f),
        bound(bind(b, name, f), other) == bound(b, other),
{
    lemma_slot(b, name);
    lemma_slot(b, other);
    let s = slot(b, name);
    let c = bind(b, name, f);
    assert forall|i: int| 0 <= i < s implies (#[trigger] c[i]).0 != name by {
        assert(c[i] == b[i]);
    }
    lemma_slot_is(c, name, s);
    let o = slot(b, other);
    assert forall|i: int| 0 <= i < o implies (#[trigger] c[i]).0 != other by {
        assert(c[i].0 == b[i].0);
    }
    if o < b.len() {
        assert(c[o] == b[o]);
        lemma_slot_is(c, other, o);
    } else {
        assert forall|i: int| 0 <= i < c.len() implies (#[trigger] c[i]).0 != other by {
            if i < b.len() {
                assert(c[i].0 == b[i].0);
            }
        }
        lemma_slot_is(c, other, c.len() as int);
    }
}

/// Binding and unbinding keep names distinct.
pub proof fn law_names_stay_distinct(b: Bindings, name: Seq<char>, f: Form)
    requires
        distinct(b),
    ensures
        distinct(bind(b, name, f)),
        distinct(unbind(b, name)),
{
    lemma_slot(b, name);
    let s = slot(b, name);
    let c = bind(b, name, f);
    assert forall|i: int, j: int| 0 <= i < j < c.len() implies (#[trigger] c[i]).0 != (
    #[trigger] c[j]).0 by {
        if j < b.len() {
            assert(c[i].0 == b[i].0);
            assert(c[j].0 == b[j].0);
        } else {
            assert(c[i] == b[i]);
        }
    }
    let d = unbind(b, name);
    assert forall|i: int, j: int| 0 <= i < j < d.len() implies (#[trigger] d[i]).0 != (
    #[trigger] d[j]).0 by {
        if s < b.len() {
            assert(d[i] == b[if i < s { i } else { i + 1 }]);
            assert(d[j] == b[if j < s { j } else { j + 1 }]);
        } else {
            assert(d[i] == b[i] && d[j] == b[j]);
        }
    }
}

/// A list of names with their terms.
#[derive(Debug)]
pub struct VarMap {
    pub entries: Vec<(String, Rc<Term>)>,
}

impl View for VarMap {
    type V = Bindings;

    open spec fn view(&self) -> Bindings {
        self.entries@.map_values(|e: (String, Rc<Term>)| (e.0@, e.1.form()))
    }
}

impl VarMap {
    /// No names.
    pub fn new() -> (r: Self)
        ensures
            r@ == Seq::<(Seq<char>, Form)>::empty(),
    {
        let r = VarMap { entries: Vec::new() };
        proof {
            assert(r@ =~= Seq::<(Seq<char>, Form)>::empty());
        }
        r
    }

    /// The number of names.
    pub fn len(&self) -> (n: usize)
        ensures
            n == self@.len(),
    {
        self.entries.len()
    }

    /// The position of `name`, or the number of names.
    fn position(&self, name: &str) -> (r: usize)
        ensures
            r == slot(self@, name@),
            r <= self@.len(),
    {
        let mut i: usize = 0;
        while i < self.entries.len()
            invariant
                i <= self.entries.len(),
                forall|j: int| 0 <= j < i ==> (#[trigger] self@[j]).0 != name@,
            decreases self.entries.len() - i,
        {
            proof {
                assert(self@[i as int].0 == self.entries@[i as int].0@);
            }
            if same(self.entries[i].0.as_str(), name) {
                proof {
                    lemma_slot_is(self@, name@, i as int);
                }
                return i;
            }
            i += 1;
        }
        proof {
            lemma_slot_is(self@, name@, i as int);
        }
        i
    }

    /// The term that `name` is bound to.
    pub fn get(&self, name: &str) -> (r: Option<Rc<Term>>)
        ensures
            match r {
                Some(t) => bound(self@, name@) == Some(t.form()),
                None => bound(self@, name@) is None,
            },
    {
        let i: usize = self.position(name);
        if i < self.entries.len() {
            Some(self.entries[i].1.clone())
        } else {
            None
        }
    }

    /// Binds `name` to `t`.
    pub fn insert(&mut self, name: &str, t: Rc<Term>)
        ensures
            final(self)@ == bind(old(self)@, name@, t.form()),
    {
        let i: usize = self.position(name);
        let ghost had = self@;
        let ghost f = t.form();
        if i < self.entries.len() {
            self.entries.set(i, (name.to_owned(), t));
            proof {
                assert(self@ =~= had.update(i as int, (name@, f)));
            }
        } else {
            self.entries.push((name.to_owned(), t));
            proof {
                assert(self@ =~= had.push((name@, f)));
            }
        }
    }

    /// Drops the binding of `name`.
    pub fn remove(&mut self, name: &str)
        ensures
            final(self)@ == unbind(old(self)@, name@),
    {
        let i: usize = self.position(name);
        let ghost had = self@;
        if i < self.entries.len() {
            let _ = self.entries.remove(i);
            proof {
                assert(self@ =~= had.remove(i as int));
            }
        }
    }

    /// What `name` is bound to, after it was bound to `t` unless it already was to something.
    pub fn entry(&mut self, name: &str, t: Rc<Term>) -> (r: Rc<Term>)
        ensures
            (r.form(), final(self)@) == entry(old(self)@, name@, t.form()),
    {
        match self.get(name) {
            Some(u) => u,
            None => {
                self.insert(name, t.clone());
                t
            },
        }
    }

    /// Binds `name` again as it was.
    pub fn restore(&mut self, name: &str, before: Option<Rc<Term>>)
        ensures
            final(self)@ == rebind(
                old(self)@,
                name@,
                match before {
                    Some(t) => Some(t.form()),
                    None => None,
                },
            ),
    {
        match before {
            Some(t) => self.insert(name, t),
            None => self.remove(name),
        }
    }
}

} // verus!
