//! Classes of characters, and what is cut off a text by them.
use vstd::prelude::*;
use crate::text;
use crate::text::{from_range, to_chars};

verus! {

/// Whether `c` beyond ASCII has the Unicode property Alphabetic.
pub uninterp spec fn unicode_alphabetic(c: char) -> bool;

/// Whether `c` beyond ASCII has one of the Unicode categories for numbers.
pub uninterp spec fn unicode_numeric(c: char) -> bool;

/// Whether `c` beyond ASCII has the Unicode property White_Space.
pub uninterp spec fn unicode_white_space(c: char) -> bool;

/// `s` with each character mapped to lower case by the Unicode tables.
pub uninterp spec fn unicode_lower(s: Seq<char>) -> Seq<char>;

/// `s` with each character mapped to upper case by the Unicode tables.
pub uninterp spec fn unicode_upper(s: Seq<char>) -> Seq<char>;

/// An ASCII letter.
pub open spec fn ascii_letter(c: char) -> bool {
    ('a' <= c && c <= 'z') || ('A' <= c && c <= 'Z')
}

/// An ASCII decimal digit.
pub open spec fn ascii_digit(c: char) -> bool {
    '0' <= c && c <= '9'
}

/// A letter.
pub open spec fn alphabetic(c: char) -> bool {
    if (c as u32) < 128 {
        ascii_letter(c)
    } else {
        unicode_alphabetic(c)
    }
}

/// A number sign.
pub open spec fn numeric(c: char) -> bool {
    if (c as u32) < 128 {
        ascii_digit(c)
    } else {
        unicode_numeric(c)
    }
}

/// A letter or a number sign.
pub open spec fn alphanumeric(c: char) -> bool {
    alphabetic(c) || numeric(c)
}

/// White space.
pub open spec fn white(c: char) -> bool {
    if (c as u32) < 128 {
        c == ' ' || (9 <= c as u32 && c as u32 <= 13)
    } else {
        unicode_white_space(c)
    }
}

/// `char::is_alphabetic`: the Unicode property Alphabetic, which among the ASCII characters the
/// letters `A` to `Z` and `a` to `z` have and no others.
#[verifier::external_body]
pub(crate) fn is_alphabetic(c: char) -> (r: bool)
    ensures
        (c as u32) < 128 ==> r == ascii_letter(c),
        (c as u32) >= 128 ==> r == unicode_alphabetic(c),
{
    c.is_alphabetic()
}

/// `char::is_numeric`: the Unicode categories for numbers, in which among the ASCII characters
/// the digits `0` to `9` are and no others.
#[verifier::external_body]
pub(crate) fn is_numeric(c: char) -> (r: bool)
    ensures
        (c as u32) < 128 ==> r == ascii_digit(c),
        (c as u32) >= 128 ==> r == unicode_numeric(c),
{
    c.is_numeric()
}

/// `char::is_whitespace`: the Unicode property White_Space, which among the ASCII characters the
/// space and U+0009 to U+000D have and no others.
#[verifier::external_body]
pub(crate) fn is_whitespace(c: char) -> (r: bool)
    ensures
        (c as u32) < 128 ==> r == (c == ' ' || (9 <= c as u32 && c as u32 <= 13)),
        (c as u32) >= 128 ==> r == unicode_white_space(c),
{
    c.is_whitespace()
}

/// A text of ASCII characters alone.
pub open spec fn ascii_only(s: Seq<char>) -> bool {
    forall|i: int| 0 <= i < s.len() ==> (#[trigger] s[i] as u32) < 128
}

/// The lower case form of an ASCII character.
pub open spec fn ascii_lower(c: char) -> char {
    if 'A' <= c && c <= 'Z' {
        (c as u32 + 32) as char
    } else {
        c
    }
}

/// The upper case form of an ASCII character.
pub open spec fn ascii_upper(c: char) -> char {
    if 'a' <= c && c <= 'z' {
        (c as u32 - 32) as char
    } else {
        c
    }
}

/// `str::to_lowercase`: the lower case form by the Unicode tables. It is a function of the text
/// alone. Of an ASCII text it is the text with `A` to `Z` mapped to `a` to `z`.
#[verifier::external_body]
pub(crate) fn to_lowercase(s: &str) -> (r: String)
    ensures
        r@ == unicode_lower(s@),
        ascii_only(s@) ==> r@ == s@.map_values(|c: char| ascii_lower(c)),
{
    s.to_lowercase()
}

/// `str::to_uppercase`: the upper case form by the Unicode tables. It is a function of the text
/// alone. Of an ASCII text it is the text with `a` to `z` mapped to `A` to `Z`.
#[verifier::external_body]
pub(crate) fn to_uppercase(s: &str) -> (r: String)
    ensures
        r@ == unicode_upper(s@),
        ascii_only(s@) ==> r@ == s@.map_values(|c: char| ascii_upper(c)),
{
    s.to_uppercase()
}

/// Whether `c` is an ASCII decimal digit.
pub fn is_digit(c: char) -> (r: bool)
    ensures
        r == ascii_digit(c),
{
    '0' <= c && c <= '9'
}

/// Whether `c` is a letter or a number sign.
pub fn is_alphanumeric(c: char) -> (r: bool)
    ensures
        r == alphanumeric(c),
{
    is_alphabetic(c) || is_numeric(c)
}

/// The classes of characters by which texts are cut.
#[derive(Clone, Copy, PartialEq, Eq, Structural)]
pub enum CharClass {
    /// White space.
    Space,
    /// Letters, number signs and `_`.
    Word,
    /// Everything that is not in `Word`.
    NotWord,
    /// Letters, number signs, `_` and the prime.
    IdentTail,
    /// Digits, `.` and `_`.
    NumberTail,
    /// Letters and `_`.
    CommandTail,
    /// Letters.
    Letter,
    /// ASCII decimal digits.
    Digit,
    /// Round brackets.
    Bracket,
    /// ASCII letters, ASCII decimal digits and `_`.
    AsciiWord,
    /// Letters, number signs, `_` and the backslash.
    Token,
}

/// Membership in a class.
pub open spec fn in_class(k: CharClass, c: char) -> bool {
    match k {
        CharClass::Space => white(c),
        CharClass::Word => alphanumeric(c) || c == '_',
        CharClass::NotWord => !(alphanumeric(c) || c == '_'),
        CharClass::IdentTail => alphanumeric(c) || c == '_' || c == '\'',
        CharClass::NumberTail => ascii_digit(c) || c == '.' || c == '_',
        CharClass::CommandTail => alphabetic(c) || c == '_',
        CharClass::Letter => alphabetic(c),
        CharClass::Digit => ascii_digit(c),
        CharClass::Bracket => c == '(' || c == ')',
        CharClass::AsciiWord => ascii_letter(c) || ascii_digit(c) || c == '_',
        CharClass::Token => alphanumeric(c) || c == '_' || c == '\\',
    }
}

/// Whether `c` is in the class `k`.
pub fn is_in(k: CharClass, c: char) -> (r: bool)
    ensures
        r == in_class(k, c),
{
    match k {
        CharClass::Space => is_whitespace(c),
        CharClass::Word => is_alphanumeric(c) || c == '_',
        CharClass::NotWord => !(is_alphanumeric(c) || c == '_'),
        CharClass::IdentTail => is_alphanumeric(c) || c == '_' || c == '\'',
        CharClass::NumberTail => is_digit(c) || c == '.' || c == '_',
        CharClass::CommandTail => is_alphabetic(c) || c == '_',
        CharClass::Letter => is_alphabetic(c),
        CharClass::Digit => is_digit(c),
        CharClass::Bracket => c == '(' || c == ')',
        CharClass::AsciiWord => ('a' <= c && c <= 'z') || ('A' <= c && c <= 'Z') || is_digit(c) || c
            == '_',
        CharClass::Token => is_alphanumeric(c) || c == '_' || c == '\\',
    }
}

/// The first position at or after `from` whose character is not in the class `k`.
pub open spec fn run_end(s: Seq<char>, from: int, k: CharClass) -> int
    decreases s.len() - from,
{
    if 0 <= from < s.len() && in_class(k, s[from]) {
        run_end(s, from + 1, k)
    } else {
        from
    }
}

/// All characters of `s` are in the class `k`.
pub open spec fn all_in(s: Seq<char>, k: CharClass) -> bool {
    forall|i: int| 0 <= i < s.len() ==> in_class(k, #[trigger] s[i])
}

/// `s` without the characters of the class `k` at its start.
pub open spec fn cut_start(s: Seq<char>, k: CharClass) -> Seq<char>
    decreases s.len(),
{
    if s.len() > 0 && in_class(k, s[0]) {
        cut_start(s.skip(1), k)
    } else {
        s
    }
}

/// `s` without the characters of the class `k` at its end.
pub open spec fn cut_end(s: Seq<char>, k: CharClass) -> Seq<char>
    decreases s.len(),
{
    if s.len() > 0 && in_class(k, s.last()) {
        cut_end(s.drop_last(), k)
    } else {
        s
    }
}

/// `s` without white space at its ends.
pub open spec fn trimmed(s: Seq<char>) -> Seq<char> {
    cut_end(cut_start(s, CharClass::Space), CharClass::Space)
}

/// The words of `s`, parted by white space.
pub open spec fn words(s: Seq<char>) -> Seq<Seq<char>>
    decreases s.len(),
{
    let t = cut_start(s, CharClass::Space);
    let e = word_end(t, 0);
    if t.len() == 0 || e <= 0 || e > t.len() || t.len() > s.len() {
        seq![]
    } else {
        seq![t.take(e)] + words(t.skip(e))
    }
}

/// The first position at or after `from` that holds white space, or the end.
pub open spec fn word_end(s: Seq<char>, from: int) -> int
    decreases s.len() - from,
{
    if 0 <= from < s.len() && !white(s[from]) {
        word_end(s, from + 1)
    } else {
        from
    }
}

/// A run ends inside the text, and a run over a fitting character is not empty.
pub proof fn lemma_run_end(s: Seq<char>, from: int, k: CharClass)
    requires
        0 <= from <= s.len(),
    ensures
        from <= run_end(s, from, k) <= s.len(),
        from < s.len() && in_class(k, s[from]) ==> from < run_end(s, from, k),
        forall|i: int| from <= i < run_end(s, from, k) ==> in_class(k, s[i]),
        run_end(s, from, k) < s.len() ==> !in_class(k, s[run_end(s, from, k)]),
    decreases s.len() - from,
{
    if from < s.len() && in_class(k, s[from]) {
        lemma_run_end(s, from + 1, k);
    }
}

/// A run ends where the first character outside the class stands.
pub proof fn lemma_run_ends_at(s: Seq<char>, from: int, to: int, k: CharClass)
    requires
        0 <= from <= to <= s.len(),
        forall|i: int| from <= i < to ==> in_class(k, #[trigger] s[i]),
        to < s.len() ==> !in_class(k, s[to]),
    ensures
        run_end(s, from, k) == to,
    decreases to - from,
{
    if from < to {
        assert(in_class(k, s[from]));
        lemma_run_ends_at(s, from + 1, to, k);
    }
}

/// A run in a tail of a text is the run in the text.
pub proof fn lemma_run_end_skip(s: Seq<char>, k: int, from: int, class: CharClass)
    requires
        0 <= k <= from <= s.len(),
    ensures
        run_end(s, from, class) == run_end(s.skip(k), from - k, class) + k,
    decreases s.len() - from,
{
    if from < s.len() {
        assert(s.skip(k)[from - k] == s[from]);
        if in_class(class, s[from]) {
            lemma_run_end_skip(s, k, from + 1, class);
        }
    }
}

/// What is left after cutting is no longer than before.
pub proof fn lemma_cut_len(s: Seq<char>, k: CharClass)
    ensures
        cut_start(s, k).len() <= s.len(),
        cut_end(s, k).len() <= s.len(),
        cut_start(s, k).len() > 0 ==> !in_class(k, cut_start(s, k)[0]),
        cut_end(s, k).len() > 0 ==> !in_class(k, cut_end(s, k).last()),
    decreases s.len(),
{
    if s.len() > 0 {
        lemma_cut_len(s.skip(1), k);
        lemma_cut_len(s.drop_last(), k);
    }
}

/// Cutting at the start drops the first run.
pub proof fn lemma_cut_start_run(s: Seq<char>, k: CharClass, at: int)
    requires
        0 <= at <= s.len(),
    ensures
        cut_start(s.skip(at), k) == s.skip(run_end(s, at, k)),
    decreases s.len() - at,
{
    if at < s.len() && in_class(k, s[at]) {
        assert(s.skip(at).skip(1) =~= s.skip(at + 1));
        assert(s.skip(at)[0] == s[at]);
        lemma_cut_start_run(s, k, at + 1);
    }
}

/// The first position at or after `from` whose character is not in the class `k`.
pub fn end_of_run(s: &[char], from: usize, k: CharClass) -> (r: usize)
    requires
        from <= s@.len(),
    ensures
        r == run_end(s@, from as int, k),
        from <= r <= s@.len(),
{
    let mut i: usize = from;
    while i < s.len() && is_in(k, s[i])
        invariant
            from <= i <= s.len(),
            run_end(s@, from as int, k) == run_end(s@, i as int, k),
        decreases s.len() - i,
    {
        i += 1;
    }
    i
}

/// Whether all characters of `s` are in the class `k`.
pub fn all_of(s: &str, k: CharClass) -> (r: bool)
    ensures
        r == all_in(s@, k),
{
    let v = to_chars(s);
    let mut i: usize = 0;
    while i < v.len()
        invariant
            i <= v.len(),
            v@ == s@,
            forall|j: int| 0 <= j < i ==> in_class(k, #[trigger] s@[j]),
        decreases v.len() - i,
    {
        if !is_in(k, v[i]) {
            return false;
        }
        i += 1;
    }
    true
}

/// `s` without the characters of the class `k` at its start.
pub fn trim_start_of(s: &str, k: CharClass) -> (r: String)
    ensures
        r@ == cut_start(s@, k),
{
    let v = to_chars(s);
    let e: usize = end_of_run(v.as_slice(), 0, k);
    proof {
        assert(s@.skip(0) =~= s@);
        lemma_cut_start_run(s@, k, 0);
        assert(s@.subrange(e as int, s@.len() as int) =~= s@.skip(e as int));
    }
    from_range(v.as_slice(), e, v.len())
}

/// `s` without the characters of the class `k` at its end.
pub fn trim_end_of(s: &str, k: CharClass) -> (r: String)
    ensures
        r@ == cut_end(s@, k),
{
    let v = to_chars(s);
    let mut e: usize = v.len();
    proof {
        assert(s@.take(s@.len() as int) =~= s@);
    }
    while e > 0 && is_in(k, v[e - 1])
        invariant
            e <= v.len(),
            v@ == s@,
            cut_end(s@, k) == cut_end(s@.take(e as int), k),
        decreases e,
    {
        proof {
            assert(s@.take(e as int).drop_last() =~= s@.take(e - 1));
        }
        e -= 1;
    }
    proof {
        assert(s@.subrange(0, e as int) =~= s@.take(e as int));
    }
    from_range(v.as_slice(), 0, e)
}

/// `s` without white space at its ends.
pub fn trim(s: &str) -> (r: String)
    ensures
        r@ == trimmed(s@),
{
    trim_end_of(trim_start_of(s, CharClass::Space).as_str(), CharClass::Space)
}

/// The words of `s`, parted by white space.
pub fn split_whitespace(s: &str) -> (r: Vec<String>)
    ensures
        text::views(r@) == words(s@),
{
    let v = to_chars(s);
    let mut out: Vec<String> = Vec::new();
    let mut at: usize = 0;
    proof {
        assert(s@.skip(0) =~= s@);
        assert(text::views(out@) + words(s@) =~= words(s@));
    }
    loop
        invariant
            at <= v@.len(),
            v@ == s@,
            words(s@) == text::views(out@) + words(s@.skip(at as int)),
        decreases v@.len() - at,
    {
        let start: usize = end_of_run(v.as_slice(), at, CharClass::Space);
        proof {
            lemma_cut_start_run(s@, CharClass::Space, at as int);
            lemma_cut_len(s@.skip(at as int), CharClass::Space);
        }
        let ghost t = s@.skip(start as int);
        let mut end: usize = start;
        while end < v.len() && !is_whitespace(v[end])
            invariant
                start <= end <= v.len(),
                v@ == s@,
                t == s@.skip(start as int),
                word_end(t, 0) == word_end(t, end - start),
            decreases v.len() - end,
        {
            proof {
                assert(t[end - start] == s@[end as int]);
            }
            end += 1;
        }
        proof {
            if end < v.len() {
                assert(t[end - start] == s@[end as int]);
            }
            assert(word_end(t, 0) == end - start);
        }
        if start == v.len() {
            proof {
                assert(words(s@.skip(at as int)) =~= seq![]);
                assert(text::views(out@) + Seq::<Seq<char>>::empty() =~= text::views(out@));
            }
            return out;
        }
        let ghost before_out = out@;
        let word = from_range(v.as_slice(), start, end);
        out.push(word);
        proof {
            assert(!white(t[0]));
            assert(word_end(t, 0) == word_end(t, 1));
            assert(s@.subrange(start as int, end as int) =~= t.take(end - start));
            assert(t.skip(end - start) =~= s@.skip(end as int));
            assert(text::views(out@) =~= text::views(before_out).push(word@));
            assert(text::views(before_out) + (seq![t.take(end - start)] + words(t.skip(end - start)))
                =~= text::views(out@) + words(s@.skip(end as int)));
        }
        at = end;
    }
}

} // verus!
