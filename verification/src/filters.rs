//! Which functions are verified: by the part of the code, by name and by section.
use vstd::prelude::*;
use crate::attributes::FunctionToVerify;
use crate::text;
use crate::text::{contains, has_string, replace, same};

verus! {

/// Whether a name is the one that is asked for. With a star in the pattern, whether the rest of the
/// pattern stands in the name.
pub open spec fn name_matches(name: Seq<char>, pattern: Seq<char>) -> bool {
    if text::holds(pattern, "*"@) {
        text::holds(name, text::replaced(pattern, "*"@, ""@))
    } else {
        name == pattern
    }
}

/// Whether a function is asked for.
pub open spec fn asked_for(
    f: FunctionToVerify,
    subsystem: Option<Seq<char>>,
    name: Option<Seq<char>>,
    sections: Seq<Seq<char>>,
) -> bool {
    &&& subsystem matches Some(s) ==> text::holds(f.file_path@, s)
    &&& name matches Some(n) ==> name_matches(f.function_name@, n)
    &&& sections.len() > 0 ==> (f.section matches Some(s) && sections.contains(s@))
}

/// The functions among the first `n` that are asked for, in their order.
pub open spec fn filtered(
    fs: Seq<FunctionToVerify>,
    n: int,
    subsystem: Option<Seq<char>>,
    name: Option<Seq<char>>,
    sections: Seq<Seq<char>>,
) -> Seq<FunctionToVerify>
    decreases n,
{
    if n <= 0 || n > fs.len() {
        seq![]
    } else if asked_for(fs[n - 1], subsystem, name, sections) {
        filtered(fs, n - 1, subsystem, name, sections).push(fs[n - 1])
    } else {
        filtered(fs, n - 1, subsystem, name, sections)
    }
}

/// An optional text as a mathematical value.
pub open spec fn text_view(s: Option<&str>) -> Option<Seq<char>> {
    match s {
        Some(x) => Some(x@),
        None => None,
    }
}

/// Whether a name is the one that is asked for.
pub fn matches_name(function_name: &str, pattern: &str) -> (r: bool)
    ensures
        r == name_matches(function_name@, pattern@),
{
    if contains(pattern, "*") {
        let rest = replace(pattern, "*", "");
        contains(function_name, rest.as_str())
    } else {
        same(function_name, pattern)
    }
}

/// Whether a file belongs to a part of the code: the name of the part stands in its path.
pub fn matches_subsystem(file_path: &str, subsystem: &str) -> (r: bool)
    ensures
        r == text::holds(file_path@, subsystem@),
{
    contains(file_path, subsystem)
}

fn is_asked_for(
    f: &FunctionToVerify,
    subsystem: Option<&str>,
    name: Option<&str>,
    sections: &Vec<String>,
) -> (r: bool)
    ensures
        r == asked_for(*f, text_view(subsystem), text_view(name), text::views(sections@)),
{
    if let Some(s) = subsystem {
        if !matches_subsystem(f.file_path.as_str(), s) {
            return false;
        }
    }
    if let Some(n) = name {
        if !matches_name(f.function_name.as_str(), n) {
            return false;
        }
    }
    proof {
        assert(text::views(sections@).len() == sections@.len());
    }
    if sections.len() > 0 {
        match &f.section {
            Some(s) => has_string(sections, s.as_str()),
            None => false,
        }
    } else {
        true
    }
}

/// The functions that are asked for, in their order.
#[verifier::loop_isolation(false)]
pub fn filter_functions(
    functions: Vec<FunctionToVerify>,
    subsystem: Option<&str>,
    name: Option<&str>,
    sections: &Vec<String>,
) -> (r: Vec<FunctionToVerify>)
    ensures
        r@ == filtered(
            functions@,
            functions@.len() as int,
            text_view(subsystem),
            text_view(name),
            text::views(sections@),
        ),
{
    let ghost all = functions@;
    let mut rest = functions;
    let mut out: Vec<FunctionToVerify> = Vec::new();
    let ghost mut i: int = 0;
    proof {
        assert(all.skip(0) =~= all);
    }
    while rest.len() > 0
        invariant
            0 <= i <= all.len(),
            rest@ == all.skip(i),
            out@ == filtered(
                all,
                i,
                text_view(subsystem),
                text_view(name),
                text::views(sections@),
            ),
        decreases rest.len(),
    {
        let ghost before = rest@;
        let f = rest.remove(0);
        proof {
            assert(f == all[i]);
            assert(rest@ =~= all.skip(i + 1));
        }
        if is_asked_for(&f, subsystem, name, sections) {
            out.push(f);
        }
        proof {
            i = i + 1;
        }
    }
    out
}

/// Without anything asked for every function stays.
pub proof fn law_no_filter_keeps_all(fs: Seq<FunctionToVerify>, n: int)
    requires
        0 <= n <= fs.len(),
    ensures
        filtered(fs, n, None, None, seq![]) == fs.take(n),
    decreases n,
{
    if n > 0 {
        law_no_filter_keeps_all(fs, n - 1);
        assert(fs.take(n) =~= fs.take(n - 1).push(fs[n - 1]));
    } else {
        assert(fs.take(0) =~= seq![]);
    }
}

/// Filtering twice by the same is filtering once.
pub proof fn law_filter_is_idempotent(
    fs: Seq<FunctionToVerify>,
    n: int,
    subsystem: Option<Seq<char>>,
    name: Option<Seq<char>>,
    sections: Seq<Seq<char>>,
)
    requires
        0 <= n <= fs.len(),
    ensures
        ({
            let once = filtered(fs, n, subsystem, name, sections);
            filtered(once, once.len() as int, subsystem, name, sections) == once
        }),
    decreases n,
{
    if n > 0 {
        law_filter_is_idempotent(fs, n - 1, subsystem, name, sections);
        let before = filtered(fs, n - 1, subsystem, name, sections);
        let once = filtered(fs, n, subsystem, name, sections);
        if asked_for(fs[n - 1], subsystem, name, sections) {
            lemma_filtered_front(before, once, before.len() as int, subsystem, name, sections);
        }
    }
}

proof fn lemma_filtered_front(
    v: Seq<FunctionToVerify>,
    w: Seq<FunctionToVerify>,
    n: int,
    subsystem: Option<Seq<char>>,
    name: Option<Seq<char>>,
    sections: Seq<Seq<char>>,
)
    requires
        0 <= n <= v.len(),
        v.is_prefix_of(w),
    ensures
        filtered(v, n, subsystem, name, sections) == filtered(w, n, subsystem, name, sections),
    decreases n,
{
    if n > 0 {
        lemma_filtered_front(v, w, n - 1, subsystem, name, sections);
        assert(v[n - 1] == w[n - 1]);
    }
}

/// A function stays exactly where its path holds the part of the code, its name is the one asked
/// for, and its section is one of those asked for, as far as each of these is asked for.
pub proof fn law_filter_keeps_what_is_asked_for(
    fs: Seq<FunctionToVerify>,
    n: int,
    subsystem: Seq<char>,
    name: Seq<char>,
    sections: Seq<Seq<char>>,
    f: FunctionToVerify,
)
    requires
        0 <= n <= fs.len(),
        !text::holds(name, "*"@),
        sections.len() > 0,
    ensures
        filtered(fs, n, Some(subsystem), None, seq![]).contains(f) <==> fs.take(n).contains(f)
            && text::holds(f.file_path@, subsystem),
        filtered(fs, n, None, Some(name), seq![]).contains(f) <==> fs.take(n).contains(f)
            && f.function_name@ == name,
        filtered(fs, n, None, None, sections).contains(f) <==> fs.take(n).contains(f) && (
        f.section matches Some(s) && sections.contains(s@)),
    decreases n,
{
    let a = filtered(fs, n, Some(subsystem), None, seq![]);
    let b = filtered(fs, n, None, Some(name), seq![]);
    let c = filtered(fs, n, None, None, sections);
    if n > 0 {
        law_filter_keeps_what_is_asked_for(fs, n - 1, subsystem, name, sections, f);
        let last = fs[n - 1];
        assert(fs.take(n) =~= fs.take(n - 1).push(last));
        lemma_push_contains(fs.take(n - 1), last, f);
        lemma_push_contains(filtered(fs, n - 1, Some(subsystem), None, seq![]), last, f);
        lemma_push_contains(filtered(fs, n - 1, None, Some(name), seq![]), last, f);
        lemma_push_contains(filtered(fs, n - 1, None, None, sections), last, f);
    } else {
        assert(fs.take(0) =~= seq![]);
    }
}

proof fn lemma_push_contains(v: Seq<FunctionToVerify>, x: FunctionToVerify, f: FunctionToVerify)
    ensures
        v.push(x).contains(f) <==> v.contains(f) || x == f,
{
    if v.contains(f) {
        let i = choose|i: int| 0 <= i < v.len() && v[i] == f;
        assert(v.push(x)[i] == f);
    }
    if x == f {
        assert(v.push(x)[v.len() as int] == f);
    }
    if v.push(x).contains(f) {
        let i = choose|i: int| 0 <= i < v.len() + 1 && v.push(x)[i] == f;
        if i < v.len() {
            assert(v[i] == f);
        }
    }
}

/// Asking for several things at once is asking for one after the other.
pub proof fn law_filters_compose(
    fs: Seq<FunctionToVerify>,
    n: int,
    subsystem: Option<Seq<char>>,
    name: Option<Seq<char>>,
    sections: Seq<Seq<char>>,
)
    requires
        0 <= n <= fs.len(),
    ensures
        ({
            let first = filtered(fs, n, subsystem, None, seq![]);
            let second = filtered(first, first.len() as int, None, name, seq![]);
            filtered(second, second.len() as int, None, None, sections) == filtered(
                fs,
                n,
                subsystem,
                name,
                sections,
            )
        }),
    decreases n,
{
    if n > 0 {
        law_filters_compose(fs, n - 1, subsystem, name, sections);
        let before = filtered(fs, n - 1, subsystem, None, seq![]);
        let first = filtered(fs, n, subsystem, None, seq![]);
        let before2 = filtered(before, before.len() as int, None, name, seq![]);
        let second = filtered(first, first.len() as int, None, name, seq![]);
        if first != before {
            assert(asked_for(fs[n - 1], subsystem, None, seq![]));
            lemma_filtered_front(before, first, before.len() as int, None, name, seq![]);
            if asked_for(fs[n - 1], None, name, seq![]) {
                assert(second == before2.push(fs[n - 1]));
                lemma_filtered_front(before2, second, before2.len() as int, None, None, sections);
            }
        }
    }
}

/// With a star at its end a pattern asks for every name that the rest of it stands in, and so for every
/// name that goes on where the rest ends.
pub proof fn law_star_stands_for_any_rest(front: Seq<char>, rest: Seq<char>)
    requires
        forall|i: int| 0 <= i < front.len() ==> front[i] != '*',
    ensures
        name_matches(front + rest, front + "*"@),
{
    reveal_strlit("*");
    reveal_strlit("");
    let p = front + "*"@;
    text::lemma_replaced_once(front, "*"@, seq![], ""@, 0);
    assert(front + "*"@ + seq![] =~= p);
    assert(front + ""@ + seq![] =~= front);
    assert(p.subrange(front.len() as int, front.len() as int + 1) =~= "*"@);
    assert(text::occurs_at(p, "*"@, front.len() as int));
    assert((front + rest).subrange(0, front.len() as int) =~= front);
    assert(text::occurs_at(front + rest, front, 0));
}

} // verus!
