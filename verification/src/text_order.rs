//! The order of texts, and of lists of texts: by the first place at which they differ, and a beginning
//! comes before what it begins.
use vstd::prelude::*;
use crate::alike::equal_texts;
use crate::text;
use crate::text::{same, to_chars};

verus! {

/// Whether `a` comes before `b`.
pub open spec fn before(a: Seq<char>, b: Seq<char>) -> bool
    decreases a.len(),
{
    if b.len() == 0 {
        false
    } else if a.len() == 0 {
        true
    } else if a[0] != b[0] {
        a[0] < b[0]
    } else {
        before(a.skip(1), b.skip(1))
    }
}

/// Whether the list `a` comes before the list `b`.
pub open spec fn list_before(a: Seq<Seq<char>>, b: Seq<Seq<char>>) -> bool
    decreases a.len(),
{
    if b.len() == 0 {
        false
    } else if a.len() == 0 {
        true
    } else if a[0] != b[0] {
        before(a[0], b[0])
    } else {
        list_before(a.skip(1), b.skip(1))
    }
}

/// No text comes before itself, and of two that differ one comes before the other, and only one.
pub proof fn law_texts_are_ordered(a: Seq<char>, b: Seq<char>)
    ensures
        !before(a, a),
        a != b ==> (before(a, b) <==> !before(b, a)),
    decreases a.len(),
{
    if a.len() > 0 {
        law_texts_are_ordered(a.skip(1), if b.len() > 0 {
            b.skip(1)
        } else {
            b
        });
        if b.len() > 0 && a[0] == b[0] && a != b {
            if a.skip(1) == b.skip(1) {
                assert(a =~= seq![a[0]] + a.skip(1));
                assert(b =~= seq![b[0]] + b.skip(1));
            }
        }
    }
    if a.len() == 0 && b.len() == 0 {
        assert(a =~= b);
    }
}

/// A text that comes before one that comes before a third comes before the third.
pub proof fn law_text_order_is_transitive(a: Seq<char>, b: Seq<char>, c: Seq<char>)
    requires
        before(a, b),
        before(b, c),
    ensures
        before(a, c),
    decreases a.len(),
{
    if a.len() > 0 && a[0] == b[0] && b[0] == c[0] {
        law_text_order_is_transitive(a.skip(1), b.skip(1), c.skip(1));
    }
}

/// No list comes before itself, and of two that differ one comes before the other, and only one.
pub proof fn law_lists_are_ordered(a: Seq<Seq<char>>, b: Seq<Seq<char>>)
    ensures
        !list_before(a, a),
        a != b ==> (list_before(a, b) <==> !list_before(b, a)),
    decreases a.len(),
{
    if a.len() > 0 {
        law_lists_are_ordered(a.skip(1), if b.len() > 0 {
            b.skip(1)
        } else {
            b
        });
        if b.len() > 0 {
            law_texts_are_ordered(a[0], b[0]);
            if a[0] == b[0] && a != b && a.skip(1) == b.skip(1) {
                assert(a =~= seq![a[0]] + a.skip(1));
                assert(b =~= seq![b[0]] + b.skip(1));
            }
        }
    }
    if a.len() == 0 && b.len() == 0 {
        assert(a =~= b);
    }
}

/// A list that comes before one that comes before a third comes before the third.
pub proof fn law_list_order_is_transitive(a: Seq<Seq<char>>, b: Seq<Seq<char>>, c: Seq<Seq<char>>)
    requires
        list_before(a, b),
        list_before(b, c),
    ensures
        list_before(a, c),
    decreases a.len(),
{
    if a.len() > 0 {
        law_texts_are_ordered(a[0], b[0]);
        law_texts_are_ordered(b[0], c[0]);
        if a[0] == b[0] && b[0] == c[0] {
            law_list_order_is_transitive(a.skip(1), b.skip(1), c.skip(1));
        } else if a[0] != b[0] && b[0] != c[0] {
            law_text_order_is_transitive(a[0], b[0], c[0]);
            law_texts_are_ordered(a[0], c[0]);
        }
    }
}

/// Whether `a` comes before `b`.
pub fn is_before(a: &str, b: &str) -> (r: bool)
    ensures
        r == before(a@, b@),
{
    let v = to_chars(a);
    let w = to_chars(b);
    let mut i: usize = 0;
    proof {
        assert(a@.skip(0) =~= a@);
        assert(b@.skip(0) =~= b@);
    }
    loop
        invariant
            v@ == a@,
            w@ == b@,
            i <= v@.len(),
            i <= w@.len(),
            before(a@, b@) == before(a@.skip(i as int), b@.skip(i as int)),
        decreases v@.len() - i,
    {
        if i == w.len() {
            return false;
        }
        if i == v.len() {
            return true;
        }
        proof {
            assert(a@.skip(i as int)[0] == a@[i as int]);
            assert(b@.skip(i as int)[0] == b@[i as int]);
            assert(a@.skip(i as int).skip(1) =~= a@.skip(i + 1));
            assert(b@.skip(i as int).skip(1) =~= b@.skip(i + 1));
        }
        if v[i] != w[i] {
            return v[i] < w[i];
        }
        i += 1;
    }
}

/// Whether the list `a` comes before the list `b`.
pub fn is_list_before(a: &Vec<String>, b: &Vec<String>) -> (r: bool)
    ensures
        r == list_before(text::views(a@), text::views(b@)),
{
    let ghost x = text::views(a@);
    let ghost y = text::views(b@);
    let mut i: usize = 0;
    proof {
        assert(x.skip(0) =~= x);
        assert(y.skip(0) =~= y);
    }
    loop
        invariant
            x == text::views(a@),
            y == text::views(b@),
            i <= a@.len(),
            i <= b@.len(),
            list_before(x, y) == list_before(x.skip(i as int), y.skip(i as int)),
        decreases a@.len() - i,
    {
        proof {
            assert(x.len() == a@.len());
            assert(y.len() == b@.len());
        }
        if i == b.len() {
            return false;
        }
        if i == a.len() {
            return true;
        }
        proof {
            assert(x.skip(i as int)[0] == a@[i as int]@);
            assert(y.skip(i as int)[0] == b@[i as int]@);
            assert(x.skip(i as int).skip(1) =~= x.skip(i + 1));
            assert(y.skip(i as int).skip(1) =~= y.skip(i + 1));
        }
        if !same(a[i].as_str(), b[i].as_str()) {
            return is_before(a[i].as_str(), b[i].as_str());
        }
        i += 1;
    }
}

/// Lists of texts as mathematical values.
pub open spec fn list_views(v: Seq<Vec<String>>) -> Seq<Seq<Seq<char>>> {
    v.map_values(|l: Vec<String>| text::views(l@))
}

/// Each list comes before all behind it. No list stands there twice then.
pub open spec fn ascending(v: Seq<Seq<Seq<char>>>) -> bool {
    forall|i: int, j: int| 0 <= i < j < v.len() ==> list_before(#[trigger] v[i], #[trigger] v[j])
}

/// Puts a list in its place, unless it is there already.
pub fn insert_list(v: &mut Vec<Vec<String>>, l: Vec<String>)
    requires
        ascending(list_views(old(v)@)),
    ensures
        ascending(list_views(final(v)@)),
        forall|x: Seq<Seq<char>>|
            list_views(final(v)@).contains(x) <==> list_views(old(v)@).contains(x) || x
                == text::views(l@),
{
    let ghost had = list_views(v@);
    let ghost lv = text::views(l@);
    let mut i: usize = 0;
    while i < v.len() && is_list_before(&v[i], &l)
        invariant
            i <= v.len(),
            had == list_views(v@),
            lv == text::views(l@),
            forall|k: int| 0 <= k < i ==> list_before(#[trigger] had[k], lv),
        decreases v.len() - i,
    {
        proof {
            assert(had[i as int] == text::views(v@[i as int]@));
        }
        i += 1;
    }
    proof {
        assert(had.len() == v@.len());
    }
    if i < v.len() && equal_texts(&v[i], &l) {
        proof {
            assert(had[i as int] == lv);
            assert(had.contains(lv));
        }
        return;
    }
    v.insert(i, l);
    proof {
        let now = list_views(v@);
        assert(now =~= had.insert(i as int, lv));
        if i < had.len() {
            law_lists_are_ordered(lv, had[i as int]);
        }
        assert forall|a: int, b: int| 0 <= a < b < now.len() implies list_before(
            #[trigger] now[a],
            #[trigger] now[b],
        ) by {
            if a < i && b == i {
                assert(now[a] == had[a]);
            } else if a == i {
                assert(now[b] == had[b - 1]);
                if b - 1 > i {
                    assert(list_before(had[i as int], had[b - 1]));
                    law_list_order_is_transitive(lv, had[i as int], had[b - 1]);
                }
            } else if a < i && b > i {
                assert(list_before(had[a], had[b - 1]));
            } else if a < i && b < i {
                assert(list_before(had[a], had[b]));
            } else {
                assert(list_before(had[a - 1], had[b - 1]));
            }
        }
        assert forall|x: Seq<Seq<char>>| now.contains(x) <==> had.contains(x) || x == lv by {
            if had.contains(x) {
                let k = choose|k: int| 0 <= k < had.len() && had[k] == x;
                if k < i {
                    assert(now[k] == x);
                } else {
                    assert(now[k + 1] == x);
                }
            }
            if x == lv {
                assert(now[i as int] == x);
            }
            if now.contains(x) {
                let k = choose|k: int| 0 <= k < now.len() && now[k] == x;
                if k < i {
                    assert(had[k] == x);
                } else if k > i {
                    assert(had[k - 1] == x);
                }
            }
        }
    }
}

/// The first difference decides, by the places of the two characters in the alphabet, and a text comes
/// before every longer one that begins with it.
pub proof fn law_first_difference_decides(
    front: Seq<char>,
    x: char,
    a: Seq<char>,
    y: char,
    b: Seq<char>,
)
    ensures
        x < y ==> before(front + seq![x] + a, front + seq![y] + b),
        before(front, front + seq![x] + a),
    decreases front.len(),
{
    let s = front + seq![x] + a;
    let t = front + seq![y] + b;
    if front.len() > 0 {
        law_first_difference_decides(front.skip(1), x, a, y, b);
        assert(s.skip(1) =~= front.skip(1) + seq![x] + a);
        assert(t.skip(1) =~= front.skip(1) + seq![y] + b);
        assert(s[0] == front[0] && t[0] == front[0]);
    }
}

/// The first texts in which two lists differ decide, and a list comes before every longer one that
/// begins with it.
pub proof fn law_first_different_text_decides(
    front: Seq<Seq<char>>,
    x: Seq<char>,
    a: Seq<Seq<char>>,
    y: Seq<char>,
    b: Seq<Seq<char>>,
)
    ensures
        before(x, y) ==> list_before(front + seq![x] + a, front + seq![y] + b),
        list_before(front, front + seq![x] + a),
    decreases front.len(),
{
    let s = front + seq![x] + a;
    let t = front + seq![y] + b;
    if front.len() > 0 {
        law_first_different_text_decides(front.skip(1), x, a, y, b);
        assert(s.skip(1) =~= front.skip(1) + seq![x] + a);
        assert(t.skip(1) =~= front.skip(1) + seq![y] + b);
        assert(s[0] == front[0] && t[0] == front[0]);
    } else {
        law_texts_are_ordered(x, y);
        assert(s[0] == x && t[0] == y);
    }
}

} // verus!
