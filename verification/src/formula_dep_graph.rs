//! Formulas that build on each other in a circle.
use vstd::prelude::*;
use crate::orange_paper;
use crate::spec_types;
use crate::spec_types::{FormulaSpec, FormulaView};
use crate::text;
use crate::text::{same, starts_with};
use crate::text_order;
use crate::text_order::{insert_list, is_list_before};

verus! {

// ---------------------------------------------------------------------------
// Rotations
// ---------------------------------------------------------------------------
/// A circle that starts `k` places later.
pub open spec fn rotated<T>(c: Seq<T>, k: int) -> Seq<T> {
    c.skip(k) + c.take(k)
}

/// Whether no rotation of a circle comes before it.
pub open spec fn least_rotation(c: Seq<Seq<char>>) -> bool {
    forall|k: int| 0 <= k < c.len() ==> !text_order::list_before(#[trigger] rotated(c, k), c)
}

fn rotate(c: &Vec<String>, k: usize) -> (r: Vec<String>)
    requires
        k <= c@.len(),
    ensures
        text::views(r@) == rotated(text::views(c@), k as int),
{
    let mut out: Vec<String> = Vec::new();
    let n: usize = c.len();
    let mut i: usize = k;
    while i < n
        invariant
            k <= i <= n,
            n == c@.len(),
            out@.len() == i - k,
            forall|j: int| 0 <= j < out@.len() ==> (#[trigger] out@[j])@ == c@[k + j]@,
        decreases n - i,
    {
        out.push(c[i].as_str().to_owned());
        i += 1;
    }
    let mut i: usize = 0;
    while i < k
        invariant
            i <= k <= n,
            n == c@.len(),
            out@.len() == n - k + i,
            forall|j: int| 0 <= j < n - k ==> (#[trigger] out@[j])@ == c@[k + j]@,
            forall|j: int|
                n - k <= j < out@.len() ==> (#[trigger] out@[j])@ == c@[j - (n - k)]@,
        decreases k - i,
    {
        out.push(c[i].as_str().to_owned());
        i += 1;
    }
    proof {
        assert(text::views(out@) =~= rotated(text::views(c@), k as int));
    }
    out
}

proof fn lemma_rotated_twice<T>(c: Seq<T>, a: int, b: int)
    requires
        0 <= a < c.len(),
        0 <= b < c.len(),
    ensures
        rotated(rotated(c, a), b) == rotated(c, if a + b < c.len() {
            a + b
        } else {
            a + b - c.len()
        }),
{
    if a + b < c.len() {
        assert(rotated(rotated(c, a), b) =~= rotated(c, a + b));
    } else {
        assert(rotated(rotated(c, a), b) =~= rotated(c, a + b - c.len()));
    }
}

/// The rotation of a circle that comes first.
pub fn canonical_cycle_rotation(cycle: Vec<String>) -> (r: Vec<String>)
    ensures
        least_rotation(text::views(r@)),
        cycle@.len() == 0 ==> r@.len() == 0,
        cycle@.len() > 0 ==> exists|k: int|
            0 <= k < cycle@.len() && text::views(r@) == #[trigger] rotated(
                text::views(cycle@),
                k,
            ),
{
    let ghost c = text::views(cycle@);
    let n: usize = cycle.len();
    proof {
        assert(c.len() == n);
        assert(rotated(c, 0) =~= c);
    }
    if n == 0 {
        return cycle;
    }
    let mut best = rotate(&cycle, 0);
    let mut i: usize = 1;
    let ghost mut at: int = 0;
    proof {
        text_order::law_lists_are_ordered(c, c);
    }
    while i < n
        invariant
            1 <= i <= n,
            n == cycle@.len(),
            c == text::views(cycle@),
            0 <= at < n,
            text::views(best@) == rotated(c, at),
            forall|k: int|
                0 <= k < i ==> !text_order::list_before(
                    #[trigger] rotated(c, k),
                    text::views(best@),
                ),
        decreases n - i,
    {
        let next = rotate(&cycle, i);
        let ghost old_best = text::views(best@);
        if is_list_before(&next, &best) {
            proof {
                let nv = text::views(next@);
                assert forall|k: int| 0 <= k < i + 1 implies !text_order::list_before(
                    #[trigger] rotated(c, k),
                    nv,
                ) by {
                    if k < i {
                        if text_order::list_before(rotated(c, k), nv) {
                            text_order::law_list_order_is_transitive(rotated(c, k), nv, old_best);
                        }
                    } else {
                        text_order::law_lists_are_ordered(nv, nv);
                    }
                }
                at = i as int;
            }
            best = next;
        }
        i += 1;
    }
    proof {
        let b = text::views(best@);
        assert(c.len() == n);
        assert forall|k: int| 0 <= k < b.len() implies !text_order::list_before(
            #[trigger] rotated(b, k),
            b,
        ) by {
            lemma_rotated_twice(c, at, k);
        }
    }
    best
}

/// The first rotation of a circle is its own first rotation.
pub proof fn law_least_rotation_is_stable(c: Seq<Seq<char>>, k: int)
    requires
        least_rotation(c),
        0 <= k < c.len(),
        least_rotation(rotated(c, k)),
    ensures
        rotated(c, k) == c,
{
    let d = rotated(c, k);
    let back = if k == 0 {
        0
    } else {
        c.len() - k
    };
    lemma_rotated_twice(c, k, back);
    assert(rotated(c, 0) =~= c);
    assert(rotated(d, back) == c);
    assert(!text_order::list_before(rotated(d, back), d));
    assert(!text_order::list_before(rotated(c, k), c));
    text_order::law_lists_are_ordered(c, d);
}

// ---------------------------------------------------------------------------
// The graph
// ---------------------------------------------------------------------------
/// The formula that the dependency `k` of the formula `u` refers to, where it is one that is defined.
pub open spec fn target(fs: Seq<FormulaView>, u: int, k: int) -> Option<int> {
    if text::starts(fs[u].depends_on[k], "F_"@) {
        orange_paper::formula_place(fs, fs[u].depends_on[k], 0)
    } else {
        None
    }
}

/// Whether the formula `u` builds on the formula `v`.
pub open spec fn edge(fs: Seq<FormulaView>, u: int, v: int) -> bool {
    exists|k: int| 0 <= k < fs[u].depends_on.len() && #[trigger] target(fs, u, k) == Some(v)
}

/// Whether `v` comes directly behind `u` in a circle.
pub open spec fn follows<T>(c: Seq<T>, u: T, v: T) -> bool {
    exists|k: int|
        0 <= k < c.len() && #[trigger] c[k] == u && v == c[if k + 1 < c.len() {
            k + 1
        } else {
            0
        }]
}

/// A circle of different formulas, each of which builds on the next one.
pub open spec fn is_circle(fs: Seq<FormulaView>, c: Seq<int>) -> bool {
    &&& c.len() > 0
    &&& c.no_duplicates()
    &&& forall|k: int| 0 <= k < c.len() ==> 0 <= #[trigger] c[k] < fs.len()
    &&& forall|u: int, v: int| #[trigger] follows(c, u, v) ==> edge(fs, u, v)
}

/// The names of formulas.
pub open spec fn ids(fs: Seq<FormulaView>, c: Seq<int>) -> Seq<Seq<char>> {
    c.map_values(|u: int| fs[u].id)
}

/// Whether no circle is in the graph.
pub open spec fn acyclic(fs: Seq<FormulaView>) -> bool {
    forall|c: Seq<int>| !is_circle(fs, c)
}

/// Whether a step from the name `a` to the name `b` is in one of the circles.
pub open spec fn reported(cs: Seq<Seq<Seq<char>>>, a: Seq<char>, b: Seq<char>) -> bool {
    exists|i: int| 0 <= i < cs.len() && follows(#[trigger] cs[i], a, b)
}

/// Whether every step of the graph goes down in rank or is in one of the circles.
pub open spec fn accounts_for(
    fs: Seq<FormulaView>,
    cs: Seq<Seq<Seq<char>>>,
    rank: Seq<int>,
) -> bool {
    forall|u: int, v: int|
        0 <= u < fs.len() && 0 <= v < fs.len() && #[trigger] edge(fs, u, v) ==> rank[v] < rank[u]
            || reported(cs, fs[u].id, fs[v].id)
}

/// Every circle of the graph has a step in common with one that is reported, where all steps are
/// accounted for.
pub proof fn law_every_circle_is_touched(
    fs: Seq<FormulaView>,
    cs: Seq<Seq<Seq<char>>>,
    rank: Seq<int>,
    c: Seq<int>,
)
    requires
        accounts_for(fs, cs, rank),
        is_circle(fs, c),
    ensures
        exists|u: int, v: int| #[trigger]
            follows(c, u, v) && reported(cs, fs[u].id, fs[v].id),
{
    if !(exists|u: int, v: int| #[trigger]
        follows(c, u, v) && reported(cs, fs[u].id, fs[v].id)) {
        lemma_rank_falls(fs, cs, rank, c, c.len() - 1);
        let last = c[c.len() - 1];
        assert(follows(c, last, c[0]));
        assert(edge(fs, last, c[0]));
        assert(rank[c[0]] < rank[last]);
    }
}

proof fn lemma_rank_falls(
    fs: Seq<FormulaView>,
    cs: Seq<Seq<Seq<char>>>,
    rank: Seq<int>,
    c: Seq<int>,
    k: int,
)
    requires
        accounts_for(fs, cs, rank),
        is_circle(fs, c),
        !(exists|u: int, v: int| #[trigger]
            follows(c, u, v) && reported(cs, fs[u].id, fs[v].id)),
        0 <= k < c.len(),
    ensures
        rank[c[k]] <= rank[c[0]],
    decreases k,
{
    if k > 0 {
        lemma_rank_falls(fs, cs, rank, c, k - 1);
        assert(c[k - 1] == c[k - 1]);
        assert(follows(c, c[k - 1], c[k]));
        assert(edge(fs, c[k - 1], c[k]));
    }
}

// ---------------------------------------------------------------------------
// The search
// ---------------------------------------------------------------------------
/// How far the search is with a formula.
#[derive(Clone, Copy, PartialEq, Eq, Structural)]
enum Color {
    /// It was not seen yet.
    White,
    /// It is being looked at.
    Gray,
    /// It is done.
    Black,
}

struct Search {
    color: Vec<Color>,
    stack: Vec<usize>,
    cycles: Vec<Vec<usize>>,
    done: Ghost<Seq<int>>,
}

spec fn places(v: Seq<usize>) -> Seq<int> {
    v.map_values(|u: usize| u as int)
}

spec fn circles(v: Seq<Vec<usize>>) -> Seq<Seq<int>> {
    v.map_values(|c: Vec<usize>| places(c@))
}

spec fn covered(cs: Seq<Seq<int>>, u: int, v: int) -> bool {
    exists|i: int| 0 <= i < cs.len() && follows(#[trigger] cs[i], u, v)
}

spec fn before_in(done: Seq<int>, p: int, v: int) -> bool {
    exists|q: int| 0 <= q < p && #[trigger] done[q] == v
}

spec fn whites(c: Seq<Color>, n: int) -> nat
    decreases n,
{
    if n <= 0 || n > c.len() {
        0
    } else {
        whites(c, n - 1) + if c[n - 1] == Color::White {
            1nat
        } else {
            0nat
        }
    }
}

proof fn lemma_whites_fewer(a: Seq<Color>, b: Seq<Color>, n: int)
    requires
        a.len() == b.len(),
        0 <= n <= a.len(),
        forall|i: int| 0 <= i < a.len() && a[i] != Color::White ==> #[trigger] b[i] != Color::White,
    ensures
        whites(b, n) <= whites(a, n),
        (exists|i: int| 0 <= i < n && #[trigger] a[i] == Color::White && b[i] != Color::White)
            ==> whites(b, n) < whites(a, n),
    decreases n,
{
    if n > 0 {
        lemma_whites_fewer(a, b, n - 1);
        if exists|i: int| 0 <= i < n && #[trigger] a[i] == Color::White && b[i] != Color::White {
            let i = choose|i: int|
                0 <= i < n && #[trigger] a[i] == Color::White && b[i] != Color::White;
            if i < n - 1 {
                assert(a[i] == Color::White && b[i] != Color::White);
            }
        }
    }
}

impl Search {
    spec fn inv(self, fs: Seq<FormulaView>) -> bool {
        let n = fs.len();
        let stack = places(self.stack@);
        let done = self.done@;
        let cycles = circles(self.cycles@);
        &&& self.color@.len() == n
        &&& forall|k: int| 0 <= k < stack.len() ==> 0 <= #[trigger] stack[k] < n
        &&& stack.no_duplicates()
        &&& forall|u: int|
            0 <= u < n ==> (#[trigger] self.color@[u] == Color::Gray <==> stack.contains(u))
        &&& forall|k: int| 0 < k < stack.len() ==> #[trigger] edge(fs, stack[k - 1], stack[k])
        &&& forall|q: int| 0 <= q < done.len() ==> 0 <= #[trigger] done[q] < n
        &&& done.no_duplicates()
        &&& forall|u: int|
            0 <= u < n ==> (#[trigger] self.color@[u] == Color::Black <==> done.contains(u))
        &&& forall|p: int, v: int|
            0 <= p < done.len() && #[trigger] edge(fs, done[p], v) ==> covered(cycles, done[p], v)
                || before_in(done, p, v)
        &&& forall|i: int| 0 <= i < cycles.len() ==> is_circle(fs, #[trigger] cycles[i])
    }

    spec fn later(self, old: Search) -> bool {
        &&& old.done@.is_prefix_of(self.done@)
        &&& old.cycles@.is_prefix_of(self.cycles@)
        &&& self.color@.len() == old.color@.len()
        &&& forall|u: int|
            0 <= u < old.color@.len() && old.color@[u] != Color::White ==> #[trigger] self.color@[u]
                == old.color@[u]
    }
}

fn find_target(fs: &Vec<FormulaSpec>, u: usize, k: usize) -> (r: Option<usize>)
    requires
        u < fs@.len(),
        k < fs@[u as int].depends_on@.len(),
    ensures
        match r {
            Some(v) => target(spec_types::formula_views(fs@), u as int, k as int) == Some(v as int)
                && v < fs@.len(),
            None => target(spec_types::formula_views(fs@), u as int, k as int) is None,
        },
{
    let ghost fv = spec_types::formula_views(fs@);
    let d = fs[u].depends_on[k].as_str();
    proof {
        assert(fv[u as int] == fs@[u as int]@);
        assert(fv[u as int].depends_on[k as int] == d@);
    }
    if !starts_with(d, "F_") {
        return None;
    }
    let mut i: usize = 0;
    while i < fs.len()
        invariant
            i <= fs.len(),
            fv == spec_types::formula_views(fs@),
            fv[u as int].depends_on[k as int] == d@,
            text::starts(d@, "F_"@),
            orange_paper::formula_place(fv, d@, 0) == orange_paper::formula_place(fv, d@, i as int),
        decreases fs.len() - i,
    {
        proof {
            assert(fv[i as int] == fs@[i as int]@);
        }
        if same(fs[i].id.as_str(), d) {
            return Some(i);
        }
        i += 1;
    }
    None
}

fn tail_of(stack: &Vec<usize>, p: usize) -> (r: Vec<usize>)
    requires
        p <= stack@.len(),
    ensures
        r@ == stack@.skip(p as int),
{
    let mut out: Vec<usize> = Vec::new();
    let mut i: usize = p;
    while i < stack.len()
        invariant
            p <= i <= stack@.len(),
            out@.len() == i - p,
            forall|j: int| 0 <= j < out@.len() ==> #[trigger] out@[j] == stack@[p + j],
        decreases stack@.len() - i,
    {
        out.push(stack[i]);
        i += 1;
    }
    proof {
        assert(out@ =~= stack@.skip(p as int));
    }
    out
}

fn place_on(stack: &Vec<usize>, v: usize) -> (r: usize)
    requires
        places(stack@).contains(v as int),
    ensures
        r < stack@.len(),
        stack@[r as int] == v,
{
    let mut i: usize = 0;
    while i < stack.len()
        invariant
            i <= stack@.len(),
            places(stack@).contains(v as int),
            forall|j: int| 0 <= j < i ==> #[trigger] stack@[j] != v,
        decreases stack@.len() - i,
    {
        if stack[i] == v {
            return i;
        }
        i += 1;
    }
    proof {
        let j = choose|j: int| 0 <= j < places(stack@).len() && places(stack@)[j] == v as int;
        assert(stack@[j] == v);
    }
    0
}

proof fn lemma_tail_is_circle(fs: Seq<FormulaView>, stack: Seq<int>, p: int)
    requires
        0 <= p < stack.len(),
        stack.no_duplicates(),
        forall|k: int| 0 <= k < stack.len() ==> 0 <= #[trigger] stack[k] < fs.len(),
        forall|k: int| 0 < k < stack.len() ==> #[trigger] edge(fs, stack[k - 1], stack[k]),
        edge(fs, stack.last(), stack[p]),
    ensures
        is_circle(fs, stack.skip(p)),
        follows(stack.skip(p), stack.last(), stack[p]),
{
    let c = stack.skip(p);
    assert forall|u: int, v: int| #[trigger] follows(c, u, v) implies edge(fs, u, v) by {
        let k = choose|k: int|
            0 <= k < c.len() && #[trigger] c[k] == u && v == c[if k + 1 < c.len() {
                k + 1
            } else {
                0
            }];
        if k + 1 < c.len() {
            assert(edge(fs, stack[p + k + 1 - 1], stack[p + k + 1]));
        }
    }
    assert(c[c.len() - 1] == stack.last());
    assert(c[0] == stack[p]);
}

impl Search {
    #[verifier::rlimit(50)]
    #[verifier::loop_isolation(false)]
    fn visit(&mut self, fs: &Vec<FormulaSpec>, u: usize)
        requires
            old(self).inv(spec_types::formula_views(fs@)),
            u < fs@.len(),
            old(self).color@[u as int] == Color::White,
            old(self).stack@.len() > 0 ==> edge(
                spec_types::formula_views(fs@),
                old(self).stack@.last() as int,
                u as int,
            ),
        ensures
            final(self).inv(spec_types::formula_views(fs@)),
            final(self).later(*old(self)),
            final(self).stack@ == old(self).stack@,
            final(self).color@[u as int] == Color::Black,
        decreases whites(old(self).color@, old(self).color@.len() as int),
    {
        let ghost fv = spec_types::formula_views(fs@);
        let ghost start = *self;
        self.color.set(u, Color::Gray);
        self.stack.push(u);
        proof {
            lemma_entered(start, *self, fv, u as int);
            lemma_whites_fewer(start.color@, self.color@, start.color@.len() as int);
            assert(start.color@[u as int] == Color::White && self.color@[u as int] != Color::White);
            assert(fv[u as int] == fs@[u as int]@);
        }
        let m: usize = fs[u].depends_on.len();
        let mut k: usize = 0;
        while k < m
            invariant
                k <= m,
                self.inv(fv),
                start.done@.is_prefix_of(self.done@),
                start.cycles@.is_prefix_of(self.cycles@),
                self.color@.len() == start.color@.len(),
                self.color@[u as int] == Color::Gray,
                forall|w: int|
                    0 <= w < start.color@.len() && w != u && start.color@[w] != Color::White
                        ==> #[trigger] self.color@[w] == start.color@[w],
                whites(self.color@, self.color@.len() as int) < whites(
                    start.color@,
                    start.color@.len() as int,
                ),
                self.stack@ == start.stack@.push(u),
                forall|j: int|
                    #![trigger target(fv, u as int, j)]
                    0 <= j < k ==> (target(fv, u as int, j) matches Some(w) ==> covered(
                        circles(self.cycles@),
                        u as int,
                        w,
                    ) || self.done@.contains(w)),
            decreases m - k,
        {
            let ghost before = *self;
            if let Some(v) = find_target(fs, u, k) {
                proof {
                    assert(edge(fv, u as int, v as int));
                }
                match self.color[v] {
                    Color::White => {
                        self.visit(fs, v);
                        proof {
                            lemma_whites_fewer(
                                before.color@,
                                self.color@,
                                before.color@.len() as int,
                            );
                            lemma_still_covered(before, *self, fv, u as int, k as int);
                            assert(self.done@.contains(v as int));
                        }
                    },
                    Color::Gray => {
                        let p = place_on(&self.stack, v);
                        let c = tail_of(&self.stack, p);
                        proof {
                            let st = places(self.stack@);
                            assert(st.last() == u);
                            assert(st[p as int] == v);
                            lemma_tail_is_circle(fv, st, p as int);
                            assert(places(c@) =~= st.skip(p as int));
                        }
                        self.cycles.push(c);
                        proof {
                            lemma_reported(before, *self, fv, places(c@));
                            lemma_still_covered(before, *self, fv, u as int, k as int);
                            let cs = circles(self.cycles@);
                            assert(cs[cs.len() - 1] == places(c@));
                            assert(covered(cs, u as int, v as int));
                        }
                    },
                    Color::Black => {},
                }
            }
            k += 1;
        }
        let ghost before = *self;
        self.stack.pop();
        self.color.set(u, Color::Black);
        proof {
            self.done@ = self.done@.push(u as int);
            assert(self.stack@ =~= start.stack@);
            lemma_left(before, *self, fv, u as int, start.stack@);
        }
    }
}

proof fn lemma_entered(a: Search, b: Search, fs: Seq<FormulaView>, u: int)
    requires
        a.inv(fs),
        0 <= u < fs.len(),
        u <= usize::MAX,
        a.color@[u] == Color::White,
        a.stack@.len() > 0 ==> edge(fs, a.stack@.last() as int, u),
        b.color@ == a.color@.update(u, Color::Gray),
        b.stack@ == a.stack@.push(u as usize),
        b.cycles@ == a.cycles@,
        b.done@ == a.done@,
    ensures
        b.inv(fs),
{
    let s = places(a.stack@);
    let t = places(b.stack@);
    assert(t =~= s.push(u));
    assert(!s.contains(u));
    assert forall|w: int| 0 <= w < fs.len() implies (#[trigger] b.color@[w] == Color::Gray
        <==> t.contains(w)) by {
        assert(a.color@[w] == Color::Gray <==> s.contains(w));
        if s.contains(w) {
            let k = choose|k: int| 0 <= k < s.len() && s[k] == w;
            assert(t[k] == w);
        }
        if w == u {
            assert(t[s.len() as int] == u);
        }
        if t.contains(w) && w != u {
            let k = choose|k: int| 0 <= k < t.len() && t[k] == w;
            assert(s[k] == w);
        }
    }
    assert forall|k: int| 0 < k < t.len() implies #[trigger] edge(fs, t[k - 1], t[k]) by {
        if k < s.len() {
            assert(edge(fs, s[k - 1], s[k]));
        } else {
            assert(t[k - 1] == a.stack@.last() as int);
        }
    }
    assert forall|w: int| 0 <= w < fs.len() implies (#[trigger] b.color@[w] == Color::Black
        <==> b.done@.contains(w)) by {
        assert(a.color@[w] == Color::Black <==> a.done@.contains(w));
    }
}

proof fn lemma_still_covered(a: Search, b: Search, fs: Seq<FormulaView>, u: int, n: int)
    requires
        a.done@.is_prefix_of(b.done@),
        a.cycles@.is_prefix_of(b.cycles@),
        forall|j: int|
            #![trigger target(fs, u, j)]
            0 <= j < n ==> (target(fs, u, j) matches Some(w) ==> covered(circles(a.cycles@), u, w)
                || a.done@.contains(w)),
    ensures
        forall|j: int|
            #![trigger target(fs, u, j)]
            0 <= j < n ==> (target(fs, u, j) matches Some(w) ==> covered(circles(b.cycles@), u, w)
                || b.done@.contains(w)),
{
    assert forall|j: int| #![trigger target(fs, u, j)] 0 <= j < n implies (target(fs, u, j) matches Some(
        w,
    ) ==> covered(circles(b.cycles@), u, w) || b.done@.contains(w)) by {
        if let Some(w) = target(fs, u, j) {
            if covered(circles(a.cycles@), u, w) {
                lemma_covered_stays(a.cycles@, b.cycles@, u, w);
            } else {
                let q = choose|q: int| 0 <= q < a.done@.len() && a.done@[q] == w;
                assert(b.done@[q] == w);
            }
        }
    }
}

proof fn lemma_covered_stays(a: Seq<Vec<usize>>, b: Seq<Vec<usize>>, u: int, w: int)
    requires
        a.is_prefix_of(b),
        covered(circles(a), u, w),
    ensures
        covered(circles(b), u, w),
{
    let i = choose|i: int| 0 <= i < circles(a).len() && follows(#[trigger] circles(a)[i], u, w);
    assert(a[i] == b[i]);
    assert(circles(b)[i] == circles(a)[i]);
}

proof fn lemma_reported(a: Search, b: Search, fs: Seq<FormulaView>, c: Seq<int>)
    requires
        a.inv(fs),
        b.color@ == a.color@,
        b.stack@ == a.stack@,
        b.done@ == a.done@,
        b.cycles@.len() == a.cycles@.len() + 1,
        a.cycles@.is_prefix_of(b.cycles@),
        places(b.cycles@.last()@) == c,
        is_circle(fs, c),
    ensures
        b.inv(fs),
{
    let ca = circles(a.cycles@);
    let cb = circles(b.cycles@);
    assert forall|i: int| 0 <= i < cb.len() implies is_circle(fs, #[trigger] cb[i]) by {
        if i < ca.len() {
            assert(a.cycles@[i] == b.cycles@[i]);
            assert(cb[i] == ca[i]);
        } else {
            assert(cb[i] == c);
        }
    }
    assert forall|p: int, v: int|
        0 <= p < b.done@.len() && #[trigger] edge(fs, b.done@[p], v) implies covered(
        cb,
        b.done@[p],
        v,
    ) || before_in(b.done@, p, v) by {
        assert(edge(fs, a.done@[p], v));
        if covered(ca, a.done@[p], v) {
            lemma_covered_stays(a.cycles@, b.cycles@, a.done@[p], v);
        }
    }
}

proof fn lemma_left(a: Search, b: Search, fs: Seq<FormulaView>, u: int, rest: Seq<usize>)
    requires
        a.inv(fs),
        0 <= u < fs.len(),
        u <= usize::MAX,
        a.stack@ == rest.push(u as usize),
        b.stack@ == rest,
        b.color@ == a.color@.update(u, Color::Black),
        a.color@[u] == Color::Gray,
        b.cycles@ == a.cycles@,
        b.done@ == a.done@.push(u),
        forall|j: int|
            #![trigger target(fs, u, j)]
            0 <= j < fs[u].depends_on.len() ==> (target(fs, u, j) matches Some(w) ==> covered(
                circles(a.cycles@),
                u,
                w,
            ) || a.done@.contains(w)),
    ensures
        b.inv(fs),
{
    let s = places(a.stack@);
    let t = places(b.stack@);
    assert(s =~= t.push(u));
    assert(t =~= s.drop_last());
    let cb = circles(b.cycles@);
    assert(!t.contains(u)) by {
        if t.contains(u) {
            let k = choose|k: int| 0 <= k < t.len() && t[k] == u;
            assert(s[k] == s[t.len() as int]);
        }
    }
    assert forall|w: int| 0 <= w < fs.len() implies (#[trigger] b.color@[w] == Color::Gray
        <==> t.contains(w)) by {
        assert(a.color@[w] == Color::Gray <==> s.contains(w));
        if t.contains(w) {
            let k = choose|k: int| 0 <= k < t.len() && t[k] == w;
            assert(s[k] == w);
        }
        if s.contains(w) && w != u {
            let k = choose|k: int| 0 <= k < s.len() && s[k] == w;
            assert(t[k] == w);
        }
    }
    assert forall|k: int| 0 < k < t.len() implies #[trigger] edge(fs, t[k - 1], t[k]) by {
        assert(edge(fs, s[k - 1], s[k]));
    }
    assert(!a.done@.contains(u)) by {
        assert(a.color@[u] == Color::Black <==> a.done@.contains(u));
    }
    assert forall|w: int| 0 <= w < fs.len() implies (#[trigger] b.color@[w] == Color::Black
        <==> b.done@.contains(w)) by {
        assert(a.color@[w] == Color::Black <==> a.done@.contains(w));
        if a.done@.contains(w) {
            let q = choose|q: int| 0 <= q < a.done@.len() && a.done@[q] == w;
            assert(b.done@[q] == w);
        }
        if w == u {
            assert(b.done@[a.done@.len() as int] == u);
        }
        if b.done@.contains(w) && w != u {
            let q = choose|q: int| 0 <= q < b.done@.len() && b.done@[q] == w;
            assert(a.done@[q] == w);
        }
    }
    assert forall|p: int, v: int|
        0 <= p < b.done@.len() && #[trigger] edge(fs, b.done@[p], v) implies covered(
        cb,
        b.done@[p],
        v,
    ) || before_in(b.done@, p, v) by {
        if p < a.done@.len() {
            assert(edge(fs, a.done@[p], v));
            if before_in(a.done@, p, v) {
                let q = choose|q: int| 0 <= q < p && #[trigger] a.done@[q] == v;
                assert(b.done@[q] == v);
            }
        } else {
            let j = choose|j: int|
                0 <= j < fs[u].depends_on.len() && #[trigger] target(fs, u, j) == Some(v);
            if a.done@.contains(v) {
                let q = choose|q: int| 0 <= q < a.done@.len() && a.done@[q] == v;
                assert(b.done@[q] == v);
            }
        }
    }
}

fn names_of(fs: &Vec<FormulaSpec>, c: &Vec<usize>) -> (r: Vec<String>)
    requires
        forall|k: int| 0 <= k < c@.len() ==> #[trigger] c@[k] < fs@.len(),
    ensures
        text::views(r@) == ids(spec_types::formula_views(fs@), places(c@)),
{
    let mut out: Vec<String> = Vec::new();
    let mut i: usize = 0;
    while i < c.len()
        invariant
            i <= c@.len(),
            forall|k: int| 0 <= k < c@.len() ==> #[trigger] c@[k] < fs@.len(),
            out@.len() == i,
            forall|k: int| 0 <= k < i ==> (#[trigger] out@[k])@ == fs@[c@[k] as int].id@,
        decreases c@.len() - i,
    {
        out.push(fs[c[i]].id.as_str().to_owned());
        i += 1;
    }
    proof {
        assert(text::views(out@) =~= ids(spec_types::formula_views(fs@), places(c@)));
    }
    out
}

proof fn lemma_rotated_follows<T>(c: Seq<T>, k: int, u: T, v: T)
    requires
        0 <= k < c.len(),
    ensures
        follows(rotated(c, k), u, v) <==> follows(c, u, v),
{
    let d = rotated(c, k);
    let n = c.len() as int;
    if follows(d, u, v) {
        let j = choose|j: int|
            0 <= j < d.len() && #[trigger] d[j] == u && v == d[if j + 1 < d.len() {
                j + 1
            } else {
                0
            }];
        let i = if j < n - k {
            k + j
        } else {
            j - (n - k)
        };
        assert(c[i] == u);
    }
    if follows(c, u, v) {
        let i = choose|i: int|
            0 <= i < c.len() && #[trigger] c[i] == u && v == c[if i + 1 < c.len() {
                i + 1
            } else {
                0
            }];
        let j = if i >= k {
            i - k
        } else {
            i + (n - k)
        };
        assert(d[j] == u);
    }
}

proof fn lemma_rotated_circle(fs: Seq<FormulaView>, c: Seq<int>, k: int)
    requires
        is_circle(fs, c),
        0 <= k < c.len(),
    ensures
        is_circle(fs, rotated(c, k)),
        ids(fs, rotated(c, k)) == rotated(ids(fs, c), k),
{
    let d = rotated(c, k);
    assert(ids(fs, d) =~= rotated(ids(fs, c), k));
    assert forall|u: int, v: int| #[trigger] follows(d, u, v) implies edge(fs, u, v) by {
        lemma_rotated_follows(c, k, u, v);
    }
}

proof fn lemma_ids_follow(fs: Seq<FormulaView>, c: Seq<int>, u: int, v: int)
    requires
        follows(c, u, v),
    ensures
        follows(ids(fs, c), fs[u].id, fs[v].id),
{
    let k = choose|k: int|
        0 <= k < c.len() && #[trigger] c[k] == u && v == c[if k + 1 < c.len() {
            k + 1
        } else {
            0
        }];
    assert(ids(fs, c)[k] == fs[u].id);
}

/// Whether `x` is what a report says of a circle in the graph: its names, from the rotation on that
/// comes first.
pub open spec fn reports_circle(fs: Seq<FormulaView>, x: Seq<Seq<char>>) -> bool {
    least_rotation(x) && exists|c: Seq<int>| is_circle(fs, c) && x == #[trigger] ids(fs, c)
}

/// Circles of formulas that build on each other, by their names. Each is written from the rotation on
/// that comes first; they come in order and none comes twice. There are some exactly where the graph
/// has a circle, and of every circle in the graph one has a step.
pub fn find_formula_id_cycles(formulas: &Vec<FormulaSpec>) -> (r: Vec<Vec<String>>)
    ensures
        text_order::ascending(text_order::list_views(r@)),
        forall|i: int|
            0 <= i < r@.len() ==> reports_circle(
                spec_types::formula_views(formulas@),
                #[trigger] text_order::list_views(r@)[i],
            ),
        exists|rank: Seq<int>| #[trigger]
            accounts_for(
                spec_types::formula_views(formulas@),
                text_order::list_views(r@),
                rank,
            ),
        r@.len() == 0 <==> acyclic(spec_types::formula_views(formulas@)),
{
    let ghost fv = spec_types::formula_views(formulas@);
    let n: usize = formulas.len();
    let mut color: Vec<Color> = Vec::new();
    let mut i: usize = 0;
    while i < n
        invariant
            i <= n,
            color@.len() == i,
            forall|k: int| 0 <= k < i ==> #[trigger] color@[k] == Color::White,
        decreases n - i,
    {
        color.push(Color::White);
        i += 1;
    }
    let mut search = Search { color, stack: Vec::new(), cycles: Vec::new(), done: Ghost(Seq::<int>::empty()) };
    proof {
        assert(search.inv(fv));
    }
    let mut i: usize = 0;
    while i < n
        invariant
            i <= n,
            n == formulas@.len(),
            fv == spec_types::formula_views(formulas@),
            search.inv(fv),
            search.stack@.len() == 0,
            forall|k: int| 0 <= k < i ==> #[trigger] search.color@[k] == Color::Black,
        decreases n - i,
    {
        if search.color[i] == Color::White {
            search.visit(formulas, i);
        } else {
            proof {
                assert(!places(search.stack@).contains(i as int));
            }
        }
        i += 1;
    }
    let ghost cs = circles(search.cycles@);
    let mut out: Vec<Vec<String>> = Vec::new();
    let mut i: usize = 0;
    while i < search.cycles.len()
        invariant
            i <= search.cycles@.len(),
            n == formulas@.len(),
            fv == spec_types::formula_views(formulas@),
            search.inv(fv),
            cs == circles(search.cycles@),
            text_order::ascending(text_order::list_views(out@)),
            forall|x: Seq<Seq<char>>| #[trigger]
                text_order::list_views(out@).contains(x) ==> reports_circle(fv, x),
            forall|k: int, u: int, v: int|
                0 <= k < i && #[trigger] follows(cs[k], u, v) ==> reported(
                    text_order::list_views(out@),
                    fv[u].id,
                    fv[v].id,
                ),
            i > 0 ==> out@.len() > 0,
        decreases search.cycles@.len() - i,
    {
        let ghost had = text_order::list_views(out@);
        proof {
            assert(cs[i as int] == places(search.cycles@[i as int]@));
            assert(is_circle(fv, cs[i as int]));
            assert forall|k: int| 0 <= k < search.cycles@[i as int]@.len() implies #[trigger]
            search.cycles@[i as int]@[k] < formulas@.len() by {
                assert(cs[i as int][k] == search.cycles@[i as int]@[k] as int);
            }
        }
        let names = names_of(formulas, &search.cycles[i]);
        let ghost nv = text::views(names@);
        let first = canonical_cycle_rotation(names);
        let ghost x = text::views(first@);
        insert_list(&mut out, first);
        proof {
            let now = text_order::list_views(out@);
            let k = choose|k: int| 0 <= k < nv.len() && x == #[trigger] rotated(nv, k);
            lemma_rotated_circle(fv, cs[i as int], k);
            assert(x == ids(fv, rotated(cs[i as int], k)));
            assert(reports_circle(fv, x));
            assert(now.contains(x));
            assert forall|j: int, u: int, v: int|
                0 <= j < i + 1 && #[trigger] follows(cs[j], u, v) implies reported(
                now,
                fv[u].id,
                fv[v].id,
            ) by {
                if j < i {
                    assert(reported(had, fv[u].id, fv[v].id));
                    let a = choose|a: int|
                        0 <= a < had.len() && follows(#[trigger] had[a], fv[u].id, fv[v].id);
                    assert(had.contains(had[a]));
                    assert(now.contains(had[a]));
                    let b = choose|b: int| 0 <= b < now.len() && now[b] == had[a];
                    assert(follows(now[b], fv[u].id, fv[v].id));
                } else {
                    lemma_ids_follow(fv, cs[i as int], u, v);
                    lemma_rotated_follows(nv, k, fv[u].id, fv[v].id);
                    let b = choose|b: int| 0 <= b < now.len() && now[b] == x;
                    assert(follows(now[b], fv[u].id, fv[v].id));
                }
            }
        }
        i += 1;
    }
    proof {
        let lv = text_order::list_views(out@);
        let done = search.done@;
        let rank = Seq::new(fv.len(), |u: int| done.index_of(u));
        assert forall|u: int, v: int|
            0 <= u < fv.len() && 0 <= v < fv.len() && #[trigger] edge(fv, u, v) implies rank[v]
            < rank[u] || reported(lv, fv[u].id, fv[v].id) by {
            assert(search.color@[u] == Color::Black);
            assert(done.contains(u));
            let p = done.index_of(u);
            assert(0 <= p < done.len() && done[p] == u);
            assert(edge(fv, done[p], v));
            if covered(cs, u, v) {
                let k = choose|k: int| 0 <= k < cs.len() && follows(#[trigger] cs[k], u, v);
                assert(follows(cs[k], u, v));
            } else {
                let q = choose|q: int| 0 <= q < p && #[trigger] done[q] == v;
                assert(done.contains(v));
                let r = done.index_of(v);
                assert(0 <= r < done.len() && done[r] == v);
                assert(r == q);
            }
        }
        assert(accounts_for(fv, lv, rank));
        assert forall|j: int| 0 <= j < out@.len() implies reports_circle(fv, #[trigger] lv[j]) by {
            assert(lv.contains(lv[j]));
        }
        if out@.len() == 0 {
            assert forall|c: Seq<int>| !is_circle(fv, c) by {
                if is_circle(fv, c) {
                    law_every_circle_is_touched(fv, lv, rank, c);
                }
            }
        } else {
            assert(reports_circle(fv, lv[0]));
        }
    }
    out
}

} // verus!
