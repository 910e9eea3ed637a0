//! Text as sequences of characters: searching, replacing, splitting and joining.
use vstd::prelude::*;
use vstd::slice::slice_subrange;

verus! {

/// Appends one character, as the standard library documents `String::push`.
pub assume_specification[ String::push ](s: &mut String, ch: char)
    ensures
        final(s)@ == old(s)@.push(ch),
;

// ---------------------------------------------------------------------------
// Vocabulary
// ---------------------------------------------------------------------------
/// `p` stands in `s` at position `i`.
pub open spec fn occurs_at(s: Seq<char>, p: Seq<char>, i: int) -> bool {
    0 <= i && i + p.len() <= s.len() && s.subrange(i, i + p.len()) == p
}

/// `p` stands somewhere in `s`.
pub open spec fn holds(s: Seq<char>, p: Seq<char>) -> bool {
    exists|i: int| occurs_at(s, p, i)
}

/// The first position at or after `from` at which `p` stands in `s`.
pub open spec fn find_from(s: Seq<char>, p: Seq<char>, from: int) -> Option<int>
    decreases s.len() + 1 - from,
{
    if from < 0 || from + p.len() > s.len() {
        None
    } else if occurs_at(s, p, from) {
        Some(from)
    } else {
        find_from(s, p, from + 1)
    }
}

/// The first position at which `p` stands in `s`.
pub open spec fn find(s: Seq<char>, p: Seq<char>) -> Option<int> {
    find_from(s, p, 0)
}

/// The last position before `end` at which the character `c` stands in `s`.
pub open spec fn rfind_before(s: Seq<char>, c: char, end: int) -> Option<int>
    decreases end,
{
    if end <= 0 || end > s.len() {
        None
    } else if s[end - 1] == c {
        Some(end - 1)
    } else {
        rfind_before(s, c, end - 1)
    }
}

/// The last position at which the character `c` stands in `s`.
pub open spec fn rfind(s: Seq<char>, c: char) -> Option<int> {
    rfind_before(s, c, s.len() as int)
}

/// `s` with every occurrence of `p`, taken from the left without overlap, replaced by `w`.
pub open spec fn replaced(s: Seq<char>, p: Seq<char>, w: Seq<char>) -> Seq<char>
    decreases s.len(),
{
    match find(s, p) {
        Some(i) if p.len() > 0 && 0 <= i && i + p.len() <= s.len() => s.take(i) + w + replaced(
            s.skip(i + p.len()),
            p,
            w,
        ),
        _ => s,
    }
}

/// The parts of `s` between the occurrences of `sep`.
pub open spec fn parts(s: Seq<char>, sep: Seq<char>) -> Seq<Seq<char>>
    decreases s.len(),
{
    match find(s, sep) {
        Some(i) if sep.len() > 0 && 0 <= i && i + sep.len() <= s.len() => seq![s.take(i)] + parts(
            s.skip(i + sep.len()),
            sep,
        ),
        _ => seq![s],
    }
}

/// What stands before the first `sep`, or all of `s` where there is none.
pub open spec fn before(s: Seq<char>, sep: Seq<char>) -> Seq<char> {
    match find(s, sep) {
        Some(i) => s.take(i),
        None => s,
    }
}

/// `s` begins with `p`.
pub open spec fn starts(s: Seq<char>, p: Seq<char>) -> bool {
    p.len() <= s.len() && s.take(p.len() as int) == p
}

/// `s` ends with `p`.
pub open spec fn ends(s: Seq<char>, p: Seq<char>) -> bool {
    p.len() <= s.len() && s.skip(s.len() - p.len()) == p
}

/// The texts `ps` in order, with `sep` between each two.
pub open spec fn joined(ps: Seq<Seq<char>>, sep: Seq<char>) -> Seq<char>
    decreases ps.len(),
{
    if ps.len() == 0 {
        seq![]
    } else if ps.len() == 1 {
        ps[0]
    } else {
        joined(ps.drop_last(), sep) + sep + ps.last()
    }
}

/// The views of a list of strings.
pub open spec fn views(v: Seq<String>) -> Seq<Seq<char>> {
    v.map_values(|s: String| s@)
}

/// The number of bytes of `c` in UTF-8.
pub open spec fn char_bytes(c: char) -> nat {
    if (c as u32) < 0x80 {
        1
    } else if (c as u32) < 0x800 {
        2
    } else if (c as u32) < 0x10000 {
        3
    } else {
        4
    }
}

/// The number of bytes of `s` in UTF-8.
pub open spec fn byte_len(s: Seq<char>) -> nat
    decreases s.len(),
{
    if s.len() == 0 {
        0
    } else {
        byte_len(s.drop_last()) + char_bytes(s.last())
    }
}

/// `s` with runs of spaces made single, by replacing pairs until none is left.
pub open spec fn single_spaced(s: Seq<char>) -> Seq<char>
    decreases s.len(),
{
    if holds(s, seq![' ', ' ']) && replaced(s, seq![' ', ' '], seq![' ']).len() < s.len() {
        single_spaced(replaced(s, seq![' ', ' '], seq![' ']))
    } else {
        s
    }
}

/// The decimal digit of value `d`.
pub open spec fn digit_char(d: nat) -> char {
    (('0' as u32) + d) as char
}

/// The decimal form of `n`.
pub open spec fn decimal(n: nat) -> Seq<char>
    decreases n,
{
    if n < 10 {
        seq![digit_char(n)]
    } else {
        decimal(n / 10).push(digit_char(n % 10))
    }
}

/// The decimal form of an integer, with a sign where it is negative.
pub open spec fn decimal_int(n: int) -> Seq<char> {
    if n < 0 {
        seq!['-'] + decimal((-n) as nat)
    } else {
        decimal(n as nat)
    }
}

// ---------------------------------------------------------------------------
// Facts
// ---------------------------------------------------------------------------
/// A search finds a position exactly when there is one, and finds the first.
pub proof fn lemma_find_from(s: Seq<char>, p: Seq<char>, from: int)
    requires
        0 <= from,
    ensures
        find_from(s, p, from) is Some ==> from <= find_from(s, p, from)->0 && occurs_at(
            s,
            p,
            find_from(s, p, from)->0,
        ),
        find_from(s, p, from) is Some ==> forall|j: int|
            from <= j < find_from(s, p, from)->0 ==> !occurs_at(s, p, j),
        find_from(s, p, from) is None ==> forall|j: int| from <= j ==> !occurs_at(s, p, j),
    decreases s.len() + 1 - from,
{
    if from + p.len() <= s.len() && !occurs_at(s, p, from) {
        lemma_find_from(s, p, from + 1);
    }
}

/// A text is found in `s` exactly when it stands there.
pub proof fn lemma_find_has(s: Seq<char>, p: Seq<char>)
    ensures
        holds(s, p) <==> find(s, p) is Some,
        find(s, p) is Some ==> 0 <= find(s, p)->0 && find(s, p)->0 + p.len() <= s.len(),
{
    lemma_find_from(s, p, 0);
    if holds(s, p) {
        let i = choose|i: int| occurs_at(s, p, i);
        assert(occurs_at(s, p, i));
    }
}

/// A text without a pattern stays as it is when the pattern is replaced or cut off.
pub proof fn lemma_absent(s: Seq<char>, p: Seq<char>, w: Seq<char>)
    requires
        !holds(s, p),
    ensures
        replaced(s, p, w) == s,
        before(s, p) == s,
{
    lemma_find_has(s, p);
}

/// A text without one of the characters of a pattern does not hold the pattern.
pub proof fn lemma_lacks(s: Seq<char>, p: Seq<char>, at: int)
    requires
        0 <= at < p.len(),
        forall|i: int| 0 <= i < s.len() ==> s[i] != p[at],
    ensures
        !holds(s, p),
{
    if holds(s, p) {
        let i = choose|i: int| occurs_at(s, p, i);
        assert(s.subrange(i, i + p.len())[at] == s[i + at]);
    }
}

/// A replacement by something shorter shortens every text that holds the pattern.
pub proof fn lemma_replaced_shrinks(s: Seq<char>, p: Seq<char>, w: Seq<char>)
    requires
        w.len() < p.len(),
    ensures
        replaced(s, p, w).len() <= s.len(),
        holds(s, p) ==> replaced(s, p, w).len() < s.len(),
    decreases s.len(),
{
    lemma_find_has(s, p);
    if find(s, p) is Some {
        let i = find(s, p)->0;
        lemma_replaced_shrinks(s.skip(i + p.len()), p, w);
    }
}

/// Making spaces single leaves no two spaces side by side.
pub proof fn lemma_single_spaced(s: Seq<char>)
    ensures
        !holds(single_spaced(s), seq![' ', ' ']),
        single_spaced(s).len() <= s.len(),
    decreases s.len(),
{
    if holds(s, seq![' ', ' ']) {
        lemma_replaced_shrinks(s, seq![' ', ' '], seq![' ']);
        lemma_single_spaced(replaced(s, seq![' ', ' '], seq![' ']));
    }
}

/// There is always at least one part.
pub proof fn lemma_parts_nonempty(s: Seq<char>, sep: Seq<char>)
    ensures
        parts(s, sep).len() >= 1,
        parts(s, sep)[0] == (if sep.len() > 0 {
            before(s, sep)
        } else {
            s
        }),
    decreases s.len(),
{
    lemma_find_has(s, sep);
    match find(s, sep) {
        Some(i) => {
            if sep.len() > 0 {
                lemma_parts_nonempty(s.skip(i + sep.len()), sep);
            }
        },
        None => {},
    }
}

// ---------------------------------------------------------------------------
// Conversions
// ---------------------------------------------------------------------------
/// The characters of `s`, in order.
pub fn to_chars(s: &str) -> (v: Vec<char>)
    ensures
        v@ == s@,
{
    let mut v: Vec<char> = Vec::new();
    for c in it: s.chars()
        invariant
            v@ == it.seq().take(it.index() as int),
            it.seq() == s@,
    {
        proof {
            assert(it.seq().take(it.index() as int).push(it.seq()[it.index() as int])
                =~= it.seq().take(it.index() + 1));
        }
        v.push(c);
    }
    proof {
        assert(s@.take(s@.len() as int) =~= s@);
    }
    v
}

/// The string whose characters are `v`.
pub fn from_chars(v: &[char]) -> (s: String)
    ensures
        s@ == v@,
{
    let mut s = String::new();
    let mut i: usize = 0;
    while i < v.len()
        invariant
            i <= v.len(),
            s@ == v@.take(i as int),
        decreases v.len() - i,
    {
        s.push(v[i]);
        i += 1;
        proof {
            assert(v@.take(i - 1).push(v@[i - 1]) =~= v@.take(i as int));
        }
    }
    proof {
        assert(v@.take(v@.len() as int) =~= v@);
    }
    s
}

/// The string that holds the characters of `v` from `a` up to `b`.
pub fn from_range(v: &[char], a: usize, b: usize) -> (s: String)
    requires
        a <= b <= v@.len(),
    ensures
        s@ == v@.subrange(a as int, b as int),
{
    from_chars(slice_subrange(v, a, b))
}

/// Whether two strings hold the same characters.
pub fn same(a: &str, b: &str) -> (r: bool)
    ensures
        r == (a@ == b@),
{
    a.to_owned() == b.to_owned()
}

/// `a` followed by `b`.
pub fn cat(a: &str, b: &str) -> (s: String)
    ensures
        s@ == a@ + b@,
{
    let mut s = a.to_owned();
    s.append(b);
    s
}

/// `a`, `b` and `c` in a row.
pub fn cat3(a: &str, b: &str, c: &str) -> (s: String)
    ensures
        s@ == a@ + b@ + c@,
{
    let mut s = a.to_owned();
    s.append(b);
    s.append(c);
    s
}

// ---------------------------------------------------------------------------
// Searching
// ---------------------------------------------------------------------------
/// Whether `p` stands in `s` at position `i`.
pub fn is_at(s: &[char], p: &[char], i: usize) -> (r: bool)
    ensures
        r == occurs_at(s@, p@, i as int),
{
    if i > s.len() || p.len() > s.len() - i {
        return false;
    }
    let mut k: usize = 0;
    while k < p.len()
        invariant
            k <= p.len(),
            i + p.len() <= s.len(),
            forall|j: int| 0 <= j < k ==> s@[i + j] == p@[j],
        decreases p.len() - k,
    {
        if s[i + k] != p[k] {
            proof {
                assert(s@.subrange(i as int, i + p@.len())[k as int] != p@[k as int]);
            }
            return false;
        }
        k += 1;
    }
    proof {
        assert(s@.subrange(i as int, i + p@.len()) =~= p@);
    }
    true
}

/// The first position at or after `from` at which `p` stands in `s`.
pub fn find_pos(s: &[char], p: &[char], from: usize) -> (r: Option<usize>)
    ensures
        match r {
            Some(i) => find_from(s@, p@, from as int) == Some(i as int) && from <= i && i + p@.len()
                <= s@.len(),
            None => find_from(s@, p@, from as int) is None,
        },
{
    let mut i: usize = from;
    while i <= s.len() && p.len() <= s.len() - i
        invariant
            from <= i,
            find_from(s@, p@, from as int) == find_from(s@, p@, i as int),
        decreases s.len() + 1 - i,
    {
        if is_at(s, p, i) {
            return Some(i);
        }
        if i == s.len() {
            proof {
                assert(s@.subrange(i as int, i + p@.len()) =~= p@);
            }
            return None;
        }
        i += 1;
    }
    None
}

/// The first position at which `p` stands in `s`.
pub fn find_str(s: &str, p: &str) -> (r: Option<usize>)
    ensures
        match r {
            Some(i) => find(s@, p@) == Some(i as int) && i + p@.len() <= s@.len(),
            None => find(s@, p@) is None,
        },
        r is Some <==> holds(s@, p@),
        s@.len() <= usize::MAX,
{
    proof {
        lemma_find_has(s@, p@);
    }
    let v = to_chars(s);
    let _n: usize = v.len();
    find_pos(v.as_slice(), to_chars(p).as_slice(), 0)
}

/// Whether `p` stands in `s`.
pub fn contains(s: &str, p: &str) -> (r: bool)
    ensures
        r == holds(s@, p@),
{
    find_str(s, p).is_some()
}

/// The last position at which `c` stands in `s`.
pub fn rfind_pos(s: &[char], c: char) -> (r: Option<usize>)
    ensures
        match r {
            Some(i) => rfind(s@, c) == Some(i as int) && i < s@.len() && s@[i as int] == c,
            None => rfind(s@, c) is None,
        },
{
    let mut end: usize = s.len();
    while end > 0
        invariant
            end <= s.len(),
            rfind(s@, c) == rfind_before(s@, c, end as int),
        decreases end,
    {
        if s[end - 1] == c {
            return Some(end - 1);
        }
        end -= 1;
    }
    None
}

/// Whether `s` begins with `p`.
pub fn starts_with(s: &str, p: &str) -> (r: bool)
    ensures
        r == starts(s@, p@),
{
    let sv = to_chars(s);
    let pv = to_chars(p);
    proof {
        if p@.len() <= s@.len() {
            assert(s@.subrange(0, 0int + p@.len()) =~= s@.take(p@.len() as int));
        }
    }
    is_at(sv.as_slice(), pv.as_slice(), 0)
}

/// Whether `s` ends with `p`.
pub fn ends_with(s: &str, p: &str) -> (r: bool)
    ensures
        r == ends(s@, p@),
{
    let sv = to_chars(s);
    let pv = to_chars(p);
    if pv.len() > sv.len() {
        return false;
    }
    proof {
        let i = s@.len() - p@.len();
        assert(s@.subrange(i, i + p@.len()) =~= s@.skip(i));
    }
    is_at(sv.as_slice(), pv.as_slice(), sv.len() - pv.len())
}

/// `s` without `p` at its start, where it stands there.
pub open spec fn without_start(s: Seq<char>, p: Seq<char>) -> Seq<char> {
    if starts(s, p) {
        s.skip(p.len() as int)
    } else {
        s
    }
}

/// `s` without `p` at its start, where it stands there.
pub fn strip_start(s: &str, p: &str) -> (r: String)
    ensures
        r@ == without_start(s@, p@),
{
    if starts_with(s, p) {
        let v = to_chars(s);
        let n: usize = to_chars(p).len();
        proof {
            assert(s@.subrange(n as int, s@.len() as int) =~= s@.skip(n as int));
        }
        from_range(v.as_slice(), n, v.len())
    } else {
        s.to_owned()
    }
}

// ---------------------------------------------------------------------------
// Rewriting
// ---------------------------------------------------------------------------
/// `s` with every occurrence of `p` replaced by `w`.
pub fn replace(s: &str, p: &str, w: &str) -> (r: String)
    ensures
        r@ == replaced(s@, p@, w@),
{
    let sv = to_chars(s);
    let pv = to_chars(p);
    let mut out = String::new();
    let mut at: usize = 0;
    if pv.len() == 0 {
        return s.to_owned();
    }
    proof {
        assert(s@.skip(0) =~= s@);
        assert(out@ + replaced(s@, p@, w@) =~= replaced(s@, p@, w@));
    }
    loop
        invariant
            at <= sv@.len(),
            sv@ == s@,
            pv@ == p@,
            p@.len() > 0,
            replaced(s@, p@, w@) == out@ + replaced(s@.skip(at as int), p@, w@),
        decreases sv@.len() - at,
    {
        let rest = slice_subrange(sv.as_slice(), at, sv.len());
        proof {
            assert(rest@ =~= s@.skip(at as int));
        }
        match find_pos(rest, pv.as_slice(), 0) {
            Some(i) => {
                let ghost before_out = out@;
                out.append(from_range(rest, 0, i).as_str());
                out.append(w);
                proof {
                    let r = s@.skip(at as int);
                    assert(r.subrange(0, i as int) =~= r.take(i as int));
                    assert(r.skip(i + p@.len()) =~= s@.skip(at + i + p@.len()));
                    assert(replaced(r, p@, w@) == r.take(i as int) + w@ + replaced(
                        r.skip(i + p@.len()),
                        p@,
                        w@,
                    ));
                    assert(before_out + (r.take(i as int) + w@ + replaced(
                        r.skip(i + p@.len()),
                        p@,
                        w@,
                    )) =~= out@ + replaced(r.skip(i + p@.len()), p@, w@));
                }
                at = at + i + pv.len();
            },
            None => {
                out.append(from_chars(rest).as_str());
                return out;
            },
        }
    }
}

/// `s` with runs of spaces made single.
pub fn single_space(s: &str) -> (r: String)
    ensures
        r@ == single_spaced(s@),
{
    let mut r = s.to_owned();
    proof {
        reveal_strlit("  ");
        reveal_strlit(" ");
        assert("  "@ =~= seq![' ', ' ']);
        assert(" "@ =~= seq![' ']);
    }
    while contains(r.as_str(), "  ")
        invariant
            "  "@ == seq![' ', ' '],
            " "@ == seq![' '],
            single_spaced(s@) == single_spaced(r@),
        decreases r@.len(),
    {
        proof {
            lemma_replaced_shrinks(r@, seq![' ', ' '], seq![' ']);
        }
        r = replace(r.as_str(), "  ", " ");
    }
    r
}

/// The part of `s` before the first `sep`, or all of it.
pub fn before_str(s: &str, sep: &str) -> (r: String)
    ensures
        r@ == before(s@, sep@),
{
    match find_str(s, sep) {
        Some(i) => {
            proof {
                assert(s@.subrange(0, i as int) =~= s@.take(i as int));
            }
            from_range(to_chars(s).as_slice(), 0, i)
        },
        None => s.to_owned(),
    }
}

/// The parts of `s` between the occurrences of `sep`.
pub fn split(s: &str, sep: &str) -> (r: Vec<String>)
    requires
        sep@.len() > 0,
    ensures
        views(r@) == parts(s@, sep@),
        r@.len() >= 1,
{
    let sv = to_chars(s);
    let pv = to_chars(sep);
    let mut out: Vec<String> = Vec::new();
    let mut at: usize = 0;
    proof {
        assert(s@.skip(0) =~= s@);
        assert(views(out@) + parts(s@, sep@) =~= parts(s@, sep@));
    }
    loop
        invariant
            at <= sv@.len(),
            sv@ == s@,
            pv@ == sep@,
            sep@.len() > 0,
            parts(s@, sep@) == views(out@) + parts(s@.skip(at as int), sep@),
        decreases sv@.len() - at,
    {
        let rest = slice_subrange(sv.as_slice(), at, sv.len());
        proof {
            assert(rest@ =~= s@.skip(at as int));
        }
        match find_pos(rest, pv.as_slice(), 0) {
            Some(i) => {
                let ghost before_out = out@;
                let part = from_range(rest, 0, i);
                out.push(part);
                proof {
                    let r = s@.skip(at as int);
                    assert(r.subrange(0, i as int) =~= r.take(i as int));
                    assert(r.skip(i + sep@.len()) =~= s@.skip(at + i + sep@.len()));
                    assert(views(out@) =~= views(before_out).push(part@));
                    assert(parts(r, sep@) == seq![r.take(i as int)] + parts(
                        r.skip(i + sep@.len()),
                        sep@,
                    ));
                    assert(views(before_out) + (seq![r.take(i as int)] + parts(
                        r.skip(i + sep@.len()),
                        sep@,
                    )) =~= views(out@) + parts(r.skip(i + sep@.len()), sep@));
                }
                at = at + i + pv.len();
            },
            None => {
                let ghost before_out = out@;
                out.push(from_chars(rest));
                proof {
                    assert(views(out@) =~= views(before_out) + seq![rest@]);
                }
                return out;
            },
        }
    }
}

/// The texts in order, with `sep` between each two.
pub fn join(ps: &[String], sep: &str) -> (r: String)
    ensures
        r@ == joined(views(ps@), sep@),
{
    let mut r = String::new();
    let mut i: usize = 0;
    proof {
        assert(views(ps@).take(0) =~= seq![]);
    }
    while i < ps.len()
        invariant
            i <= ps.len(),
            r@ == joined(views(ps@).take(i as int), sep@),
        decreases ps.len() - i,
    {
        if i > 0 {
            r.append(sep);
        }
        r.append(ps[i].as_str());
        proof {
            let t = views(ps@).take(i + 1);
            assert(t.drop_last() =~= views(ps@).take(i as int));
            assert(t.last() == ps@[i as int]@);
            if i == 0 {
                assert(t[0] == ps@[0]@);
                assert(r@ =~= ps@[0]@);
            }
        }
        i += 1;
    }
    proof {
        assert(views(ps@).take(ps@.len() as int) =~= views(ps@));
    }
    r
}

/// Whether `s` is in the list.
pub fn has_string(v: &Vec<String>, s: &str) -> (r: bool)
    ensures
        r == views(v@).contains(s@),
{
    let mut i: usize = 0;
    while i < v.len()
        invariant
            i <= v.len(),
            forall|j: int| 0 <= j < i ==> views(v@)[j] != s@,
        decreases v.len() - i,
    {
        proof {
            assert(views(v@)[i as int] == v@[i as int]@);
        }
        if same(v[i].as_str(), s) {
            return true;
        }
        i += 1;
    }
    false
}

/// A line without the carriage return at its end.
pub open spec fn without_return(s: Seq<char>) -> Seq<char> {
    if s.len() > 0 && s.last() == '\r' {
        s.drop_last()
    } else {
        s
    }
}

/// The lines of `s`. They end in a line feed, or a carriage return and a line feed; behind the last
/// line the end may be missing.
pub open spec fn lines(s: Seq<char>) -> Seq<Seq<char>>
    decreases s.len(),
{
    if s.len() == 0 {
        seq![]
    } else {
        match find(s, "\n"@) {
            Some(p) if 0 <= p < s.len() => seq![without_return(s.take(p))] + lines(s.skip(p + 1)),
            _ => seq![s],
        }
    }
}

/// The lines of `s`.
pub fn lines_of(s: &str) -> (r: Vec<String>)
    ensures
        views(r@) == lines(s@),
{
    let v = to_chars(s);
    let nl = to_chars("\n");
    let mut out: Vec<String> = Vec::new();
    let mut at: usize = 0;
    proof {
        reveal_strlit("\n");
        assert(s@.skip(0) =~= s@);
        assert(views(out@) + lines(s@) =~= lines(s@));
    }
    while at < v.len()
        invariant
            at <= v@.len(),
            v@ == s@,
            nl@ == "\n"@,
            "\n"@.len() == 1,
            lines(s@) == views(out@) + lines(s@.skip(at as int)),
        decreases v.len() - at,
    {
        let ghost t = s@.skip(at as int);
        let ghost had = out@;
        match find_pos(v.as_slice(), nl.as_slice(), at) {
            Some(p) => {
                proof {
                    lemma_find_from(s@, "\n"@, at as int);
                    lemma_find_skip(s@, "\n"@, at as int);
                }
                let end: usize = if p > at && v[p - 1] == '\r' {
                    p - 1
                } else {
                    p
                };
                let line = from_range(v.as_slice(), at, end);
                proof {
                    assert(t.take(p - at) =~= s@.subrange(at as int, p as int));
                    assert(without_return(t.take(p - at)) =~= line@);
                    assert(t.skip(p - at + 1) =~= s@.skip(p + 1));
                }
                let ghost lv = line@;
                out.push(line);
                proof {
                    assert(views(out@) =~= views(had).push(lv));
                    assert(views(had) + (seq![lv] + lines(s@.skip(p + 1))) =~= views(out@) + lines(
                        s@.skip(p + 1),
                    ));
                }
                at = p + 1;
            },
            None => {
                proof {
                    lemma_find_skip(s@, "\n"@, at as int);
                }
                let line = from_range(v.as_slice(), at, v.len());
                proof {
                    assert(t =~= s@.subrange(at as int, s@.len() as int));
                }
                let ghost lv = line@;
                out.push(line);
                proof {
                    assert(views(out@) =~= views(had).push(lv));
                    assert(views(had) + seq![lv] =~= views(out@));
                }
                return out;
            },
        }
    }
    proof {
        assert(s@.skip(at as int) =~= seq![]);
        assert(views(out@) + Seq::<Seq<char>>::empty() =~= views(out@));
    }
    out
}

/// Searching in a tail is searching from its start.
pub proof fn lemma_find_skip(s: Seq<char>, p: Seq<char>, at: int)
    requires
        0 <= at <= s.len(),
    ensures
        find_from(s, p, at) == (match find(s.skip(at), p) {
            Some(i) => Some(i + at),
            None => None,
        }),
{
    lemma_find_skip_from(s, p, at, 0);
}

proof fn lemma_find_skip_from(s: Seq<char>, p: Seq<char>, at: int, from: int)
    requires
        0 <= at <= s.len(),
        0 <= from <= s.len() - at,
    ensures
        find_from(s, p, at + from) == (match find_from(s.skip(at), p, from) {
            Some(i) => Some(i + at),
            None => None,
        }),
    decreases s.len() - at - from,
{
    let t = s.skip(at);
    if from + p.len() <= t.len() {
        assert(t.subrange(from, from + p.len()) =~= s.subrange(at + from, at + from + p.len()));
    }
    if from < t.len() {
        lemma_find_skip_from(s, p, at, from + 1);
    }
}

// ---------------------------------------------------------------------------
// Replacing sign by sign
// ---------------------------------------------------------------------------
/// A text in which each sign becomes what `f` says.
pub open spec fn mapped(s: Seq<char>, f: spec_fn(char) -> Seq<char>) -> Seq<char>
    decreases s.len(),
{
    if s.len() == 0 {
        seq![]
    } else {
        f(s[0]) + mapped(s.skip(1), f)
    }
}

/// One sign becomes `w`, and the others stay.
pub open spec fn one_becomes(c: char, w: Seq<char>) -> spec_fn(char) -> Seq<char> {
    |x: char|
        if x == c {
            w
        } else {
            seq![x]
        }
}

/// Mapping two texts one behind the other is mapping each.
pub proof fn lemma_mapped_both(s: Seq<char>, t: Seq<char>, f: spec_fn(char) -> Seq<char>)
    ensures
        mapped(s + t, f) == mapped(s, f) + mapped(t, f),
    decreases s.len(),
{
    if s.len() == 0 {
        assert(s + t =~= t);
        assert(mapped(s, f) + mapped(t, f) =~= mapped(t, f));
    } else {
        lemma_mapped_both(s.skip(1), t, f);
        assert((s + t).skip(1) =~= s.skip(1) + t);
        assert(f(s[0]) + (mapped(s.skip(1), f) + mapped(t, f)) =~= f(s[0]) + mapped(s.skip(1), f)
            + mapped(t, f));
    }
}

/// Mapping twice is mapping once by both.
pub proof fn lemma_mapped_twice(
    s: Seq<char>,
    f: spec_fn(char) -> Seq<char>,
    g: spec_fn(char) -> Seq<char>,
    h: spec_fn(char) -> Seq<char>,
)
    requires
        forall|c: char| #[trigger] h(c) == mapped(f(c), g),
    ensures
        mapped(mapped(s, f), g) == mapped(s, h),
    decreases s.len(),
{
    if s.len() > 0 {
        lemma_mapped_twice(s.skip(1), f, g, h);
        lemma_mapped_both(f(s[0]), mapped(s.skip(1), f), g);
        assert(h(s[0]) == mapped(f(s[0]), g));
    }
}

/// Mapping a text of one or two signs.
pub proof fn lemma_mapped_short(a: char, b: char, f: spec_fn(char) -> Seq<char>)
    ensures
        mapped(seq![a], f) == f(a),
        mapped(seq![a, b], f) == f(a) + f(b),
{
    assert(seq![a].skip(1) =~= seq![]);
    assert(mapped(seq![], f) =~= seq![]);
    assert(f(a) + Seq::<char>::empty() =~= f(a));
    assert(seq![b].skip(1) =~= seq![]);
    assert(f(b) + Seq::<char>::empty() =~= f(b));
    assert(mapped(seq![b], f) == f(b));
    assert(seq![a, b].skip(1) =~= seq![b]);
}

/// A text of signs that stay stays.
pub proof fn lemma_mapped_stays(s: Seq<char>, f: spec_fn(char) -> Seq<char>)
    requires
        forall|i: int| 0 <= i < s.len() ==> f(#[trigger] s[i]) == seq![s[i]],
    ensures
        mapped(s, f) == s,
    decreases s.len(),
{
    if s.len() > 0 {
        let t = s.skip(1);
        assert forall|i: int| 0 <= i < t.len() implies f(#[trigger] t[i]) == seq![t[i]] by {
            assert(t[i] == s[i + 1]);
        }
        lemma_mapped_stays(t, f);
        assert(f(s[0]) == seq![s[0]]);
        assert(seq![s[0]] + t =~= s);
    } else {
        assert(s =~= seq![]);
    }
}

/// Replacing a single sign is mapping it.
pub proof fn lemma_replaced_sign(s: Seq<char>, p: Seq<char>, w: Seq<char>)
    requires
        p.len() == 1,
    ensures
        replaced(s, p, w) == mapped(s, one_becomes(p[0], w)),
    decreases s.len(),
{
    lemma_find_from(s, p, 0);
    if s.len() > 0 {
        assert(s.subrange(0, 1) =~= seq![s[0]]);
        assert(p =~= seq![p[0]]);
        lemma_replaced_sign(s.skip(1), p, w);
        if s[0] == p[0] {
            assert(occurs_at(s, p, 0));
            assert(find(s, p) == Some(0int));
            assert(s.take(0) + w + replaced(s.skip(1), p, w) =~= w + replaced(s.skip(1), p, w));
        } else {
            assert(!occurs_at(s, p, 0));
            lemma_find_skip(s, p, 1);
            assert(find(s, p) == find_from(s, p, 1));
            lemma_find_has(s.skip(1), p);
            match find(s.skip(1), p) {
                Some(i) => {
                    assert(s.take(i + 1) =~= seq![s[0]] + s.skip(1).take(i));
                    assert(s.skip(i + 2) =~= s.skip(1).skip(i + 1));
                    assert(s.take(i + 1) + w + replaced(s.skip(i + 2), p, w) =~= seq![s[0]] + (
                    s.skip(1).take(i) + w + replaced(s.skip(1).skip(i + 1), p, w)));
                },
                None => {
                    assert(s =~= seq![s[0]] + s.skip(1));
                },
            }
        }
    }
}

/// A text that occurs once is replaced there: where one sign of it stands nowhere else.
pub proof fn lemma_replaced_once(a: Seq<char>, p: Seq<char>, b: Seq<char>, w: Seq<char>, k: int)
    requires
        0 <= k < p.len(),
        forall|i: int| 0 <= i < a.len() ==> #[trigger] a[i] != p[k],
        forall|i: int| 0 <= i < b.len() ==> #[trigger] b[i] != p[k],
        forall|i: int| 0 <= i < p.len() && i != k ==> #[trigger] p[i] != p[k],
    ensures
        find(a + p + b, p) == Some(a.len() as int),
        replaced(a + p + b, p, w) == a + w + b,
{
    let s = a + p + b;
    let n = a.len() as int;
    assert(s.subrange(n, n + p.len()) =~= p);
    assert(occurs_at(s, p, n));
    lemma_find_has(s, p);
    lemma_find_from(s, p, 0);
    let i = find(s, p)->0;
    assert(s.subrange(i, i + p.len())[k] == s[i + k]);
    if i + k < n {
        assert(s[i + k] == a[i + k]);
    } else if i + k < n + p.len() {
        assert(s[i + k] == p[i + k - n]);
    } else {
        assert(s[i + k] == b[i + k - n - p.len()]);
    }
    assert(i == n);
    assert(s.skip(n + p.len()) =~= b);
    assert(s.take(n) =~= a);
    lemma_lacks(b, p, k);
    lemma_absent(b, p, w);
}

/// A character of ASCII that begins no command.
pub open spec fn plain(c: char) -> bool {
    c != '\\' && (c as u32) < 0x80
}

/// A text without commands and without signs beyond ASCII.
pub open spec fn all_plain(s: Seq<char>) -> bool {
    forall|i: int| 0 <= i < s.len() ==> plain(#[trigger] s[i])
}

/// Whether `p` differs at `j` from what stands in `q` from `k` on.
pub open spec fn differ_at(p: Seq<char>, q: Seq<char>, k: int, j: int) -> bool {
    0 <= j < p.len() && 0 <= k + j < q.len() && p[j] != q[k + j]
}

/// Whether two signs differ in one of the places that tell signs apart.
pub open spec fn told_apart(p: Seq<char>, q: Seq<char>) -> bool {
    differ_at(p, q, 0, 0) || differ_at(p, q, 0, 1) || differ_at(p, q, 0, 2) || differ_at(p, q, 0, 5)
        || differ_at(p, q, 0, 6)
}

/// One step of a chain of replacements on a text with a single sign `p` in it, which becomes `w`: the
/// step for `p` itself replaces it, and the steps for other signs leave the text as it is.
pub proof fn lemma_sign_step(
    a: Seq<char>,
    p: Seq<char>,
    w: Seq<char>,
    b: Seq<char>,
    t: Seq<char>,
    q: Seq<char>,
    k: int,
    v: Seq<char>,
)
    requires
        all_plain(a),
        all_plain(b),
        all_plain(w),
        p.len() > 0,
        !plain(p[0]),
        forall|i: int| 1 <= i < p.len() ==> plain(#[trigger] p[i]),
        0 <= k < q.len(),
        !plain(q[k]),
        t == a + p + b || t == a + w + b,
        p == q ==> v == w && k == 0,
        p != q && t != a + w + b ==> exists|j: int| differ_at(p, q, k, j),
    ensures
        p == q ==> replaced(t, q, v) == a + w + b,
        p != q ==> replaced(t, q, v) == t,
{
    let n = a.len() as int;
    if t == a + w + b {
        assert forall|i: int| 0 <= i < t.len() implies t[i] != q[k] by {
            if i < n {
                assert(t[i] == a[i]);
            } else if i < n + w.len() {
                assert(t[i] == w[i - n]);
            } else {
                assert(t[i] == b[i - n - w.len()]);
            }
        }
        lemma_lacks(t, q, k);
        lemma_absent(t, q, v);
    } else if p == q {
        lemma_replaced_once(a, p, b, w, 0);
    } else {
        let j = choose|j: int| differ_at(p, q, k, j);
        if holds(t, q) {
            let i = choose|i: int| occurs_at(t, q, i);
            assert(t.subrange(i, i + q.len())[k] == t[i + k]);
            if i + k < n {
                assert(t[i + k] == a[i + k]);
            } else if n + p.len() <= i + k {
                assert(t[i + k] == b[i + k - n - p.len()]);
            } else {
                assert(t[i + k] == p[i + k - n]);
            }
            assert(i + k == n);
            assert(t.subrange(i, i + q.len())[k + j] == t[n + j]);
            assert(t[n + j] == p[j]);
        }
        lemma_absent(t, q, v);
    }
}

/// A text is found where it first stands: behind a front that lacks its first character.
pub proof fn lemma_find_behind(a: Seq<char>, p: Seq<char>, b: Seq<char>)
    requires
        p.len() > 0,
        forall|i: int| 0 <= i < a.len() ==> a[i] != p[0],
    ensures
        find(a + p + b, p) == Some(a.len() as int),
        (a + p + b).take(a.len() as int) == a,
        (a + p + b).skip((a.len() + p.len()) as int) == b,
{
    let s = a + p + b;
    let n = a.len() as int;
    assert(s.take(n) =~= a);
    assert(s.skip(n + p.len()) =~= b);
    lemma_first_behind(a, p, s);
}

proof fn lemma_first_behind(a: Seq<char>, p: Seq<char>, s: Seq<char>)
    requires
        p.len() > 0,
        forall|i: int| 0 <= i < a.len() ==> #[trigger] s[i] != p[0],
        a.len() + p.len() <= s.len(),
        s.subrange(a.len() as int, (a.len() + p.len()) as int) =~= p,
    ensures
        find(s, p) == Some(a.len() as int),
{
    let n = a.len() as int;
    assert(occurs_at(s, p, n));
    lemma_find_has(s, p);
    lemma_find_from(s, p, 0);
    let i = find(s, p)->0;
    assert(s.subrange(i, i + p.len())[0] == s[i]);
    assert(p[0] == s[i]);
    assert(i >= n);
}

/// The parts of two texts with a separator between them are the parts of the one and then those of
/// the other.
pub proof fn lemma_parts_of_both(a: Seq<char>, sep: Seq<char>, b: Seq<char>)
    requires
        sep.len() == 1,
    ensures
        parts(a + sep + b, sep) == parts(a, sep) + parts(b, sep),
    decreases a.len(),
{
    let s = a + sep + b;
    let n = a.len() as int;
    lemma_find_has(a, sep);
    lemma_find_has(s, sep);
    lemma_find_from(a, sep, 0);
    lemma_find_from(s, sep, 0);
    assert(s.subrange(n, n + 1) =~= sep);
    assert(occurs_at(s, sep, n));
    let i = find(s, sep)->0;
    match find(a, sep) {
        Some(j) => {
            assert(s.subrange(j, j + 1) =~= a.subrange(j, j + 1));
            assert(occurs_at(s, sep, j));
            if i < j {
                assert(a.subrange(i, i + 1) =~= s.subrange(i, i + 1));
                assert(occurs_at(a, sep, i));
            }
            assert(i == j);
            lemma_parts_of_both(a.skip(j + 1), sep, b);
            assert(s.skip(j + 1) =~= a.skip(j + 1) + sep + b);
            assert(s.take(j) =~= a.take(j));
            assert(parts(s, sep) =~= parts(a, sep) + parts(b, sep));
        },
        None => {
            if i < n {
                assert(a.subrange(i, i + 1) =~= s.subrange(i, i + 1));
                assert(occurs_at(a, sep, i));
            }
            assert(i == n);
            assert(s.take(n) =~= a);
            assert(s.skip(n + 1) =~= b);
        },
    }
}

proof fn lemma_joined_behind(x: Seq<char>, ps: Seq<Seq<char>>, sep: Seq<char>)
    requires
        ps.len() > 0,
    ensures
        joined(seq![x] + ps, sep) == x + sep + joined(ps, sep),
    decreases ps.len(),
{
    let all = seq![x] + ps;
    reveal_with_fuel(joined, 2);
    if ps.len() > 1 {
        lemma_joined_behind(x, ps.drop_last(), sep);
        assert(all.drop_last() =~= seq![x] + ps.drop_last());
        assert(all.last() == ps.last());
        let j = joined(ps.drop_last(), sep);
        assert((x + sep + j) + sep + ps.last() =~= x + sep + (j + sep + ps.last()));
    } else {
        assert(all.drop_last() =~= seq![x]);
        assert(all.last() == ps[0]);
    }
}

/// The parts of a text with the separator between them are the text.
pub proof fn lemma_joined_parts(s: Seq<char>, sep: Seq<char>)
    requires
        sep.len() > 0,
    ensures
        joined(parts(s, sep), sep) == s,
    decreases s.len(),
{
    lemma_find_has(s, sep);
    lemma_find_from(s, sep, 0);
    reveal_with_fuel(joined, 2);
    match find(s, sep) {
        Some(i) => {
            let rest = s.skip(i + sep.len());
            lemma_joined_parts(rest, sep);
            lemma_parts_nonempty(rest, sep);
            lemma_joined_behind(s.take(i), parts(rest, sep), sep);
            assert(s.subrange(i, i + sep.len()) =~= sep);
            assert(s =~= s.take(i) + sep + rest);
        },
        None => {
            assert(parts(s, sep) == seq![s]);
        },
    }
}

/// A character that is no separator goes to the last part.
pub proof fn lemma_last_part_grows(s: Seq<char>, sep: Seq<char>, c: char)
    requires
        sep.len() == 1,
        c != sep[0],
    ensures
        parts(s.push(c), sep).len() == parts(s, sep).len(),
        parts(s.push(c), sep).last() == parts(s, sep).last().push(c),
        parts(s, sep).len() > 0,
    decreases s.len(),
{
    let t = s.push(c);
    lemma_find_has(s, sep);
    lemma_find_has(t, sep);
    lemma_find_from(s, sep, 0);
    lemma_find_from(t, sep, 0);
    match find(s, sep) {
        Some(i) => {
            assert(t.subrange(i, i + 1) =~= s.subrange(i, i + 1));
            assert(occurs_at(t, sep, i));
            let j = find(t, sep)->0;
            if j < i {
                assert(s.subrange(j, j + 1) =~= t.subrange(j, j + 1));
                assert(occurs_at(s, sep, j));
            }
            assert(i == j);
            lemma_last_part_grows(s.skip(i + 1), sep, c);
            assert(t.skip(i + 1) =~= s.skip(i + 1).push(c));
        },
        None => {
            if find(t, sep) is Some {
                let j = find(t, sep)->0;
                assert(t.subrange(j, j + 1)[0] == t[j]);
                if j < s.len() {
                    assert(s.subrange(j, j + 1) =~= t.subrange(j, j + 1));
                    assert(occurs_at(s, sep, j));
                }
            }
            assert(parts(t, sep) == seq![t]);
        },
    }
}

// ---------------------------------------------------------------------------
// Numbers
// ---------------------------------------------------------------------------
/// A prefix has no more bytes than the whole.
pub proof fn lemma_byte_len_take(s: Seq<char>, k: int)
    requires
        0 <= k <= s.len(),
    ensures
        byte_len(s.take(k)) <= byte_len(s),
    decreases s.len() - k,
{
    if k < s.len() {
        lemma_byte_len_take(s, k + 1);
        assert(s.take(k + 1).drop_last() =~= s.take(k));
    } else {
        assert(s.take(k) =~= s);
    }
}

/// The number of bytes of one character in UTF-8.
pub fn bytes_of_char(c: char) -> (n: usize)
    ensures
        n == char_bytes(c),
{
    let v: u32 = c as u32;
    if v < 0x80 {
        1
    } else if v < 0x800 {
        2
    } else if v < 0x10000 {
        3
    } else {
        4
    }
}

/// The number of bytes of `s` in UTF-8.
pub fn byte_count(s: &str) -> (n: u128)
    ensures
        n == byte_len(s@),
{
    let v = to_chars(s);
    let mut n: u128 = 0;
    let mut i: usize = 0;
    proof {
        assert(s@.take(0) =~= seq![]);
    }
    while i < v.len()
        invariant
            i <= v@.len(),
            v@ == s@,
            n == byte_len(s@.take(i as int)),
            n <= 4 * i,
        decreases v@.len() - i,
    {
        proof {
            let t = s@.take(i + 1);
            assert(t.drop_last() =~= s@.take(i as int));
            assert(t.last() == s@[i as int]);
        }
        n = n + bytes_of_char(v[i]) as u128;
        i += 1;
    }
    proof {
        assert(s@.take(s@.len() as int) =~= s@);
    }
    n
}

/// Whether `s` has fewer than `limit` bytes in UTF-8.
pub fn shorter_than(s: &str, limit: usize) -> (r: bool)
    ensures
        r == (byte_len(s@) < limit),
{
    let v = to_chars(s);
    let mut n: usize = 0;
    let mut i: usize = 0;
    while i < v.len()
        invariant
            i <= v.len(),
            v@ == s@,
            n == byte_len(s@.take(i as int)),
            n < limit || i == 0,
        decreases v.len() - i,
    {
        proof {
            assert(s@.take(i + 1).drop_last() =~= s@.take(i as int));
            lemma_byte_len_take(s@, i + 1);
        }
        let b: usize = bytes_of_char(v[i]);
        if limit <= b || n >= limit - b {
            return false;
        }
        n = n + b;
        i += 1;
    }
    proof {
        assert(s@.take(s@.len() as int) =~= s@);
    }
    n < limit
}

/// The longest beginning of `s` that has no more than `n` bytes in UTF-8.
pub open spec fn byte_prefix(s: Seq<char>, n: nat) -> Seq<char>
    decreases s.len(),
{
    if s.len() > 0 && char_bytes(s[0]) <= n {
        seq![s[0]] + byte_prefix(s.skip(1), (n - char_bytes(s[0])) as nat)
    } else {
        seq![]
    }
}

/// `s`, or where it has more than `limit` bytes its beginning of up to `keep` bytes and three dots.
pub open spec fn shortened(s: Seq<char>, limit: nat, keep: nat) -> Seq<char> {
    if byte_len(s) > limit {
        byte_prefix(s, keep) + "..."@
    } else {
        s
    }
}

/// `s`, or where it has more than `limit` bytes its beginning of up to `keep` bytes and three dots.
pub fn shorten(s: &str, limit: usize, keep: usize) -> (r: String)
    requires
        limit < usize::MAX,
    ensures
        r@ == shortened(s@, limit as nat, keep as nat),
{
    if shorter_than(s, limit + 1) {
        return s.to_owned();
    }
    let v = to_chars(s);
    let mut i: usize = 0;
    let mut left: usize = keep;
    proof {
        assert(s@.skip(0) =~= s@);
        assert(s@.take(0) + byte_prefix(s@, keep as nat) =~= byte_prefix(s@, keep as nat));
    }
    while i < v.len() && bytes_of_char(v[i]) <= left
        invariant
            i <= v@.len(),
            v@ == s@,
            byte_prefix(s@, keep as nat) == s@.take(i as int) + byte_prefix(
                s@.skip(i as int),
                left as nat,
            ),
        decreases v@.len() - i,
    {
        proof {
            let t = s@.skip(i as int);
            assert(t[0] == s@[i as int]);
            assert(t.skip(1) =~= s@.skip(i + 1));
            assert(s@.take(i as int) + (seq![t[0]] + byte_prefix(
                s@.skip(i + 1),
                (left - char_bytes(t[0])) as nat,
            )) =~= s@.take(i + 1) + byte_prefix(
                s@.skip(i + 1),
                (left - char_bytes(t[0])) as nat,
            ));
        }
        left = left - bytes_of_char(v[i]);
        i += 1;
    }
    let front = from_range(v.as_slice(), 0, i);
    proof {
        assert(s@.subrange(0, i as int) =~= s@.take(i as int));
        if i < v@.len() {
            assert(s@.skip(i as int)[0] == s@[i as int]);
        }
        assert(byte_prefix(s@.skip(i as int), left as nat) =~= seq![]);
        assert(s@.take(i as int) + Seq::<char>::empty() =~= s@.take(i as int));
    }
    cat(front.as_str(), "...")
}

/// The first `n` characters of `s`, or all where it has fewer.
pub open spec fn front(s: Seq<char>, n: nat) -> Seq<char> {
    if s.len() > n {
        s.take(n as int)
    } else {
        s
    }
}

/// The first `n` characters of `s`, or all where it has fewer.
pub fn front_of(s: &str, n: usize) -> (r: String)
    ensures
        r@ == front(s@, n as nat),
{
    let v = to_chars(s);
    if v.len() > n {
        proof {
            assert(s@.subrange(0, n as int) =~= s@.take(n as int));
        }
        from_range(v.as_slice(), 0, n)
    } else {
        s.to_owned()
    }
}

/// The decimal digit of value `d`.
pub fn digit_of(d: u8) -> (c: char)
    requires
        d < 10,
    ensures
        c == digit_char(d as nat),
{
    (48u8 + d) as char
}

/// The decimal form of `n`.
pub fn decimal_of(n: u128) -> (s: String)
    ensures
        s@ == decimal(n as nat),
    decreases n,
{
    if n < 10 {
        let mut s = String::new();
        s.push(digit_of(n as u8));
        proof {
            assert(s@ =~= decimal(n as nat));
        }
        s
    } else {
        let mut s = decimal_of(n / 10);
        s.push(digit_of((n % 10) as u8));
        s
    }
}

/// The decimal form of a count.
pub fn count_text(n: usize) -> (s: String)
    ensures
        s@ == decimal(n as nat),
{
    decimal_of(n as u128)
}

/// The decimal form of an `i64`.
pub fn integer_text(n: i64) -> (s: String)
    ensures
        s@ == decimal_int(n as int),
{
    if n < 0 {
        let m: i128 = 0 - (n as i128);
        let d = decimal_of(m as u128);
        proof {
            reveal_strlit("-");
            assert("-"@ =~= seq!['-']);
        }
        cat("-", d.as_str())
    } else {
        decimal_of(n as u128)
    }
}

} // verus!
