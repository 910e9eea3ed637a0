//! The order of sections by their numbers: `5.2` comes before `5.10`.
use vstd::prelude::*;
use crate::numbers;
use crate::numbers::parse_unsigned;
use crate::text;
use crate::text::split;

verus! {

/// The number that a part of a section's number writes. A part that is missing, or that is not a number
/// below `2^32`, counts as zero.
pub open spec fn part_value(parts: Seq<Seq<char>>, i: int) -> nat {
    if 0 <= i < parts.len() {
        match numbers::unsigned_up_to(parts[i], 10, 0xffff_ffff) {
            Some(n) => n,
            None => 0,
        }
    } else {
        0
    }
}

/// What a section is ordered by: the first three parts of its number.
pub open spec fn section_key(number: Seq<char>) -> (nat, nat, nat) {
    let parts = text::parts(number, "."@);
    (part_value(parts, 0), part_value(parts, 1), part_value(parts, 2))
}

/// Whether a key comes before another.
pub open spec fn key_before(a: (nat, nat, nat), b: (nat, nat, nat)) -> bool {
    a.0 < b.0 || (a.0 == b.0 && (a.1 < b.1 || (a.1 == b.1 && a.2 < b.2)))
}

/// Whether a section comes before another.
#[verifier::opaque]
pub open spec fn section_before(a: Seq<char>, b: Seq<char>) -> bool {
    key_before(section_key(a), section_key(b))
}

/// No section comes before itself, and the order of sections is transitive.
pub proof fn law_section_order(a: Seq<char>, b: Seq<char>, c: Seq<char>)
    ensures
        !section_before(a, a),
        section_before(a, b) && section_before(b, c) ==> section_before(a, c),
{
    reveal(section_before);
}

fn value_of_part(parts: &Vec<String>, i: usize) -> (r: u32)
    ensures
        r == part_value(text::views(parts@), i as int),
{
    proof {
        assert(text::views(parts@).len() == parts@.len());
    }
    if i < parts.len() {
        proof {
            assert(text::views(parts@)[i as int] == parts@[i as int]@);
        }
        match parse_unsigned(parts[i].as_str(), 10, 0xffff_ffff) {
            Some(n) => n as u32,
            None => 0,
        }
    } else {
        0
    }
}

/// What a section is ordered by.
pub fn key_of_section(number: &str) -> (r: (u32, u32, u32))
    ensures
        (r.0 as nat, r.1 as nat, r.2 as nat) == section_key(number@),
{
    proof {
        reveal_strlit(".");
    }
    let parts = split(number, ".");
    (value_of_part(&parts, 0), value_of_part(&parts, 1), value_of_part(&parts, 2))
}

/// Whether a section comes before another.
pub fn is_section_before(a: &str, b: &str) -> (r: bool)
    ensures
        r == section_before(a@, b@),
{
    proof {
        reveal(section_before);
    }
    let x = key_of_section(a);
    let y = key_of_section(b);
    x.0 < y.0 || (x.0 == y.0 && (x.1 < y.1 || (x.1 == y.1 && x.2 < y.2)))
}

proof fn lemma_decimal_parts(n: nat, rest: Seq<char>)
    ensures
        text::parts(text::decimal(n) + "."@ + rest, "."@) == seq![text::decimal(n)] + text::parts(
            rest,
            "."@,
        ),
        text::parts(text::decimal(n), "."@) == seq![text::decimal(n)],
{
    reveal_strlit(".");
    let d = text::decimal(n);
    let s = d + "."@ + rest;
    numbers::law_decimal_is_read_back(n, 0);
    assert(s.subrange(d.len() as int, d.len() as int + 1) =~= "."@);
    assert(text::occurs_at(s, "."@, d.len() as int));
    text::lemma_find_has(s, "."@);
    text::lemma_find_from(s, "."@, 0);
    let i = text::find(s, "."@)->0;
    assert(s.subrange(i, i + 1)[0] == s[i]);
    if i < d.len() {
        assert(s[i] == d[i]);
    }
    assert(s.take(i) =~= d);
    assert(s.skip(i + 1) =~= rest);
    text::lemma_lacks(d, "."@, 0);
    text::lemma_find_has(d, "."@);
}

/// Sections are ordered by the numbers of their parts and not by their letters: `a.b` comes before
/// `c.d` where `a` is the smaller number, or where `a` and `c` are equal and `b` is the smaller
/// number.
pub proof fn law_sections_are_ordered_by_number(a: nat, b: nat, c: nat, d: nat)
    requires
        a <= 0xffff_ffff,
        b <= 0xffff_ffff,
        c <= 0xffff_ffff,
        d <= 0xffff_ffff,
    ensures
        section_before(
            text::decimal(a) + "."@ + text::decimal(b),
            text::decimal(c) + "."@ + text::decimal(d),
        ) <==> a < c || a == c && b < d,
{
    reveal(section_before);
    lemma_decimal_parts(a, text::decimal(b));
    lemma_decimal_parts(b, seq![]);
    lemma_decimal_parts(c, text::decimal(d));
    lemma_decimal_parts(d, seq![]);
    numbers::law_decimal_is_read_back(a, 0xffff_ffff);
    numbers::law_decimal_is_read_back(b, 0xffff_ffff);
    numbers::law_decimal_is_read_back(c, 0xffff_ffff);
    numbers::law_decimal_is_read_back(d, 0xffff_ffff);
}

/// Subsections of one section are ordered by the numbers of their last parts, and come behind the
/// section.
pub proof fn law_subsections_are_ordered_by_number(a: nat, b: nat, c: nat, d: nat)
    requires
        a <= 0xffff_ffff,
        b <= 0xffff_ffff,
        c <= 0xffff_ffff,
        d <= 0xffff_ffff,
    ensures
        ({
            let section = text::decimal(a) + "."@ + text::decimal(b);
            let sub = text::decimal(a) + "."@ + (text::decimal(b) + "."@ + text::decimal(c));
            let other = text::decimal(a) + "."@ + (text::decimal(b) + "."@ + text::decimal(d));
            (section_before(sub, other) <==> c < d) && (section_before(section, sub) <==> 0 < c)
        }),
{
    reveal(section_before);
    lemma_decimal_parts(a, text::decimal(b));
    lemma_decimal_parts(a, text::decimal(b) + "."@ + text::decimal(c));
    lemma_decimal_parts(a, text::decimal(b) + "."@ + text::decimal(d));
    lemma_decimal_parts(b, text::decimal(c));
    lemma_decimal_parts(b, text::decimal(d));
    lemma_decimal_parts(c, seq![]);
    lemma_decimal_parts(d, seq![]);
    numbers::law_decimal_is_read_back(a, 0xffff_ffff);
    numbers::law_decimal_is_read_back(b, 0xffff_ffff);
    numbers::law_decimal_is_read_back(c, 0xffff_ffff);
    numbers::law_decimal_is_read_back(d, 0xffff_ffff);
}

} // verus!
