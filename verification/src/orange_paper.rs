//! A specification in markdown: its sections, and where things stand in them.
use vstd::prelude::*;
use crate::chars;
use crate::chars::{to_lowercase, trim};
use crate::patterns;
use crate::patterns::captures;
use crate::section_order;
use crate::section_order::is_section_before;
use crate::spec_extract;
use crate::spec_extract::{
    extract_constants_from_section,
    extract_formulas,
    extract_implementation_invariants,
    extract_standalone_properties,
    read_functions,
};
use crate::spec_types;
use crate::spec_types::{
    ConstantView,
    ExtractedConstant,
    FormulaSpec,
    FormulaView,
    FunctionSpec,
    FunctionView,
    SectionView,
    SpecSection,
    StandaloneProperty,
    StandaloneView,
    Theorem,
    TheoremView,
};
use crate::text;
use crate::text::{cat, cat3, contains, join, lines_of, same, split, starts_with, to_chars};

verus! {

/// `## 6.1 Title`.
pub const SECTION_HEAD: &'static str = r"^##+?\s+(\d+(?:\.\d+)*)\s+(.+)$";

// ---------------------------------------------------------------------------
// From lines to sections
// ---------------------------------------------------------------------------
/// A section as it is cut out of a document.
#[verifier::ext_equal]
pub struct BlockView {
    pub id: Seq<char>,
    pub title: Seq<char>,
    pub lines: Seq<Seq<char>>,
}

/// A section as it is cut out of a document.
#[derive(Debug)]
pub struct RawSection {
    pub id: String,
    pub title: String,
    pub lines: Vec<String>,
}

impl View for RawSection {
    type V = BlockView;

    open spec fn view(&self) -> BlockView {
        BlockView { id: self.id@, title: self.title@, lines: text::views(self.lines@) }
    }
}

/// Sections as they are cut out, as mathematical values.
pub open spec fn block_views(v: Seq<RawSection>) -> Seq<BlockView> {
    v.map_values(|b: RawSection| b@)
}

/// The number and the title that a head gives.
pub type Head = Option<(Seq<char>, Seq<char>)>;

/// The head that a line is.
pub open spec fn head_of(line: Seq<char>) -> Head {
    match patterns::pattern_groups(SECTION_HEAD@, line) {
        Some(g) => Some((patterns::group_text(g, 1), patterns::group_text(g, 2))),
        None => None,
    }
}

/// The heads of lines.
pub open spec fn heads_of(lines: Seq<Seq<char>>) -> Seq<Head> {
    lines.map_values(|l: Seq<char>| head_of(l))
}

/// The sections of the first `n` lines: each goes from its head to the next one. What stands before
/// the first head belongs to none.
pub open spec fn blocks_given(lines: Seq<Seq<char>>, heads: Seq<Head>, n: int) -> Seq<BlockView>
    decreases n,
{
    if n <= 0 || n > lines.len() {
        seq![]
    } else {
        let done = blocks_given(lines, heads, n - 1);
        match heads[n - 1] {
            Some((id, title)) => done.push(BlockView { id, title, lines: seq![lines[n - 1]] }),
            None => if done.len() > 0 {
                done.drop_last().push(
                    BlockView { lines: done.last().lines.push(lines[n - 1]), ..done.last() },
                )
            } else {
                done
            },
        }
    }
}

/// The sections of a document as they are cut out.
pub open spec fn document_blocks(content: Seq<char>) -> Seq<BlockView> {
    let lines = text::lines(content);
    blocks_given(lines, heads_of(lines), lines.len() as int)
}

/// Heads as mathematical values.
pub open spec fn head_views(v: Seq<Option<(String, String)>>) -> Seq<Head> {
    v.map_values(
        |h: Option<(String, String)>|
            match h {
                Some((a, b)) => Some((a@, b@)),
                None => None,
            },
    )
}

/// The sections of lines, by the heads among them.
pub fn split_sections(lines: &Vec<String>, heads: &Vec<Option<(String, String)>>) -> (r: Vec<
    RawSection,
>)
    requires
        lines@.len() == heads@.len(),
    ensures
        block_views(r@) == blocks_given(
            text::views(lines@),
            head_views(heads@),
            lines@.len() as int,
        ),
{
    let ghost lv = text::views(lines@);
    let ghost hv = head_views(heads@);
    let mut out: Vec<RawSection> = Vec::new();
    let mut i: usize = 0;
    proof {
        assert(block_views(out@) =~= seq![]);
    }
    while i < lines.len()
        invariant
            i <= lines.len(),
            lines@.len() == heads@.len(),
            lv == text::views(lines@),
            hv == head_views(heads@),
            block_views(out@) == blocks_given(lv, hv, i as int),
        decreases lines.len() - i,
    {
        let ghost had = out@;
        let line = lines[i].as_str();
        proof {
            assert(lv[i as int] == line@);
            assert(hv[i as int] == (match heads@[i as int] {
                Some((a, b)) => Some((a@, b@)),
                None => None::<(Seq<char>, Seq<char>)>,
            }));
        }
        match &heads[i] {
            Some(h) => {
                let mut own: Vec<String> = Vec::new();
                own.push(line.to_owned());
                proof {
                    assert(text::views(own@) =~= seq![line@]);
                }
                out.push(
                    RawSection {
                        id: h.0.as_str().to_owned(),
                        title: h.1.as_str().to_owned(),
                        lines: own,
                    },
                );
                proof {
                    assert(block_views(out@) =~= block_views(had).push(
                        BlockView { id: h.0@, title: h.1@, lines: seq![line@] },
                    ));
                }
            },
            None => {
                if let Some(mut last) = out.pop() {
                    let ghost before = last@;
                    proof {
                        assert(block_views(had).last() == had.last()@);
                        assert(block_views(had).drop_last() =~= block_views(had.drop_last()));
                    }
                    let ghost own = last.lines@;
                    last.lines.push(line.to_owned());
                    proof {
                        assert(text::views(last.lines@) =~= text::views(own).push(line@));
                    }
                    let ghost lastv = last@;
                    out.push(last);
                    proof {
                        assert(block_views(out@) =~= block_views(had.drop_last()).push(lastv));
                        assert(lastv == BlockView { lines: before.lines.push(line@), ..before });
                    }
                }
            },
        }
        i += 1;
    }
    out
}

fn read_heads(lines: &Vec<String>) -> (r: Vec<Option<(String, String)>>)
    ensures
        r@.len() == lines@.len(),
        head_views(r@) == heads_of(text::views(lines@)),
{
    let mut out: Vec<Option<(String, String)>> = Vec::new();
    let mut i: usize = 0;
    while i < lines.len()
        invariant
            i <= lines.len(),
            out@.len() == i,
            forall|k: int|
                0 <= k < i ==> (match #[trigger] out@[k] {
                    Some((a, b)) => Some((a@, b@)),
                    None => None::<(Seq<char>, Seq<char>)>,
                }) == head_of(lines@[k]@),
        decreases lines.len() - i,
    {
        let head = match captures(SECTION_HEAD, lines[i].as_str()) {
            Some(g) => Some((crate::spec_text::text_in(&g, 1), crate::spec_text::text_in(&g, 2))),
            None => None,
        };
        out.push(head);
        i += 1;
    }
    proof {
        assert(head_views(out@) =~= heads_of(text::views(lines@)));
    }
    out
}

// ---------------------------------------------------------------------------
// Sections
// ---------------------------------------------------------------------------
/// A section of which nothing but the head is read.
pub open spec fn bare_section(b: BlockView) -> SectionView {
    SectionView {
        id: b.id,
        title: b.title,
        functions: seq![],
        theorems: seq![],
        constants: seq![],
        standalone_properties: seq![],
        formulas: seq![],
        content: seq![],
    }
}

/// The functions of a section, behind them the one that stands for its invariants.
pub open spec fn all_functions(id: Seq<char>, content: Seq<char>) -> Seq<FunctionView> {
    match spec_extract::section_invariants(id, content) {
        Some(f) => spec_extract::section_functions(id, content).push(f),
        None => spec_extract::section_functions(id, content),
    }
}

/// A section with everything that is read out of it, or what is wrong with a constant of it.
pub open spec fn section_read(b: BlockView) -> Result<SectionView, Seq<char>> {
    let content = text::joined(b.lines, "\n"@);
    match spec_extract::section_constants(b.id, content) {
        Ok(constants) => Ok(
            SectionView {
                id: b.id,
                title: b.title,
                functions: all_functions(b.id, content),
                theorems: seq![],
                constants,
                standalone_properties: spec_extract::section_standalone(b.id, content),
                formulas: spec_extract::section_formulas(b.id, content),
                content,
            },
        ),
        Err(e) => Err(e),
    }
}

/// The place of the section `id` among the sections from `i` on.
pub open spec fn place_from(v: Seq<SectionView>, id: Seq<char>, i: int) -> Option<int>
    decreases v.len() - i,
{
    if i < 0 || i >= v.len() {
        None
    } else if v[i].id == id {
        Some(i)
    } else {
        place_from(v, id, i + 1)
    }
}

/// The place of the section `id`.
pub open spec fn place(v: Seq<SectionView>, id: Seq<char>) -> Option<int> {
    place_from(v, id, 0)
}

/// Sections with one more: in the place of the one with the same number, or behind all.
pub open spec fn with_section(v: Seq<SectionView>, s: SectionView) -> Seq<SectionView> {
    match place(v, s.id) {
        Some(i) => v.update(i, s),
        None => v.push(s),
    }
}

/// What reading the first `n` sections gives: the sections, and what is wrong where reading stopped.
pub open spec fn sections_read(v: Seq<SectionView>, blocks: Seq<BlockView>, n: int) -> (
    Seq<SectionView>,
    Option<Seq<char>>,
)
    decreases n,
{
    if n <= 0 || n > blocks.len() {
        (v, None)
    } else {
        let (done, fault) = sections_read(v, blocks, n - 1);
        if fault is Some {
            (done, fault)
        } else {
            match section_read(blocks[n - 1]) {
                Ok(s) => (with_section(done, s), None),
                Err(e) => (with_section(done, bare_section(blocks[n - 1])), Some(e)),
            }
        }
    }
}

/// No number occurs twice.
pub open spec fn distinct(v: Seq<SectionView>) -> bool {
    forall|i: int, j: int|
        0 <= i < j < v.len() ==> (#[trigger] v[i]).id != (#[trigger] v[j]).id
}

proof fn lemma_place(v: Seq<SectionView>, id: Seq<char>, i: int)
    requires
        0 <= i,
    ensures
        match place_from(v, id, i) {
            Some(p) => i <= p < v.len() && v[p].id == id && forall|k: int|
                i <= k < p ==> (#[trigger] v[k]).id != id,
            None => forall|k: int| i <= k < v.len() ==> (#[trigger] v[k]).id != id,
        },
    decreases v.len() - i,
{
    if i < v.len() && v[i].id != id {
        lemma_place(v, id, i + 1);
    }
}

/// Where no number occurs twice, none does after a section was added, and the added section is the
/// one with its number.
pub proof fn law_adding_keeps_numbers_distinct(v: Seq<SectionView>, s: SectionView)
    requires
        distinct(v),
    ensures
        distinct(with_section(v, s)),
        place(with_section(v, s), s.id) matches Some(p) && with_section(v, s)[p] == s,
{
    lemma_place(v, s.id, 0);
    let w = with_section(v, s);
    lemma_place(w, s.id, 0);
    match place(v, s.id) {
        Some(i) => {
            assert(w[i] == s);
        },
        None => {
            assert(w[v.len() as int] == s);
        },
    }
}

/// Adding a section leaves every section with another number as it is.
pub proof fn law_adding_keeps_others(v: Seq<SectionView>, s: SectionView, id: Seq<char>)
    requires
        distinct(v),
        id != s.id,
    ensures
        section_at(with_section(v, s), id) == section_at(v, id),
{
    lemma_place(v, s.id, 0);
    lemma_place(v, id, 0);
    let w = with_section(v, s);
    lemma_place(w, id, 0);
    match place(v, id) {
        Some(p) => {
            assert(w[p] == v[p]);
        },
        None => {
            assert forall|k: int| 0 <= k < w.len() implies (#[trigger] w[k]).id != id by {
                if k < v.len() {
                    assert(v[k].id != id);
                }
            }
        },
    }
}

/// The section with a number.
pub open spec fn section_at(v: Seq<SectionView>, id: Seq<char>) -> Option<SectionView> {
    match place(v, id) {
        Some(p) => Some(v[p]),
        None => None,
    }
}

/// The sections of both lists, or which number occurs in both: those of the second one are added in
/// order, up to the first that is there already.
pub open spec fn merged(v: Seq<SectionView>, w: Seq<SectionView>, n: int) -> (
    Seq<SectionView>,
    Option<Seq<char>>,
)
    decreases n,
{
    if n <= 0 || n > w.len() {
        (v, None)
    } else {
        let (done, fault) = merged(v, w, n - 1);
        if fault is Some {
            (done, fault)
        } else if place(done, w[n - 1].id) is Some {
            (done, Some("Duplicate section ID: "@ + w[n - 1].id))
        } else {
            (done.push(w[n - 1]), None)
        }
    }
}

/// A merge that succeeds keeps every section of both sides, and no number occurs twice then.
pub proof fn law_merge_keeps_all(v: Seq<SectionView>, w: Seq<SectionView>, n: int)
    requires
        distinct(v),
        0 <= n <= w.len(),
        merged(v, w, n).1 is None,
    ensures
        merged(v, w, n).0 == v + w.take(n),
        distinct(v + w.take(n)),
    decreases n,
{
    if n > 0 {
        law_merge_keeps_all(v, w, n - 1);
        let done = merged(v, w, n - 1).0;
        lemma_place(done, w[n - 1].id, 0);
        assert(v + w.take(n) =~= done.push(w[n - 1]));
    } else {
        assert(v + w.take(0) =~= v);
    }
}

/// A merge fails exactly where a number of one side occurs on the other, where no number occurs
/// twice on either.
pub proof fn law_merge_fails_on_common_number(v: Seq<SectionView>, w: Seq<SectionView>)
    requires
        distinct(v),
        distinct(w),
    ensures
        merged(v, w, w.len() as int).1 is Some <==> exists|i: int, j: int|
            0 <= i < v.len() && 0 <= j < w.len() && (#[trigger] v[i]).id == (#[trigger] w[j]).id,
{
    lemma_merge_fails(v, w, w.len() as int);
}

proof fn lemma_merge_fails(v: Seq<SectionView>, w: Seq<SectionView>, n: int)
    requires
        distinct(v),
        distinct(w),
        0 <= n <= w.len(),
    ensures
        merged(v, w, n).1 is Some <==> exists|i: int, j: int|
            0 <= i < v.len() && 0 <= j < n && (#[trigger] v[i]).id == (#[trigger] w[j]).id,
    decreases n,
{
    if n > 0 {
        lemma_merge_fails(v, w, n - 1);
        if merged(v, w, n - 1).1 is None {
            law_merge_keeps_all(v, w, n - 1);
            let done = merged(v, w, n - 1).0;
            lemma_place(done, w[n - 1].id, 0);
            match place(done, w[n - 1].id) {
                Some(p) => {
                    if p < v.len() {
                        assert(v[p].id == w[n - 1].id);
                    } else {
                        assert(done[p] == w[p - v.len()]);
                        assert(w[p - v.len()].id != w[n - 1].id);
                    }
                },
                None => {
                    assert forall|i: int, j: int|
                        0 <= i < v.len() && 0 <= j < n implies (#[trigger] v[i]).id != (
                    #[trigger] w[j]).id by {
                        assert(done[i] == v[i]);
                        if j < n - 1 {
                            assert(!(exists|a: int, b: int|
                                0 <= a < v.len() && 0 <= b < n - 1 && (#[trigger] v[a]).id == (
                                #[trigger] w[b]).id));
                        }
                    }
                },
            }
        }
    }
}

// ---------------------------------------------------------------------------
// The parser
// ---------------------------------------------------------------------------
/// A specification: its text and the sections that were read out of it. No number occurs twice among
/// the sections.
#[derive(Debug)]
pub struct SpecParser {
    content: String,
    sections: Vec<SpecSection>,
}

/// A file of a specification: its path, and its text or why it could not be read.
pub type SpecFile = (String, Result<String, String>);

/// A result without a value, as a mathematical value.
pub open spec fn fault_of(r: Result<(), String>) -> Option<Seq<char>> {
    match r {
        Ok(()) => None,
        Err(e) => Some(e@),
    }
}

/// The sections of the first `n` files, or what is wrong with the first file of which something is.
pub open spec fn files_read(files: Seq<SpecFile>, n: int) -> Result<Seq<SectionView>, Seq<char>>
    decreases n,
{
    if n <= 0 || n > files.len() {
        Err("At least one spec path required"@)
    } else if n == 1 {
        file_read(files[0], "Failed to parse spec: "@)
    } else {
        match files_read(files, n - 1) {
            Err(e) => Err(e),
            Ok(v) => match file_read(
                files[n - 1],
                "Failed to parse spec "@ + files[n - 1].0@ + ": "@,
            ) {
                Err(e) => Err(e),
                Ok(w) => match merged(v, w, w.len() as int) {
                    (all, None) => Ok(all),
                    (_, Some(e)) => Err(e),
                },
            },
        }
    }
}

/// The sections of a file, or what is wrong with it.
pub open spec fn file_read(file: SpecFile, complaint: Seq<char>) -> Result<
    Seq<SectionView>,
    Seq<char>,
> {
    match file.1 {
        Err(e) => Err(e@),
        Ok(content) => {
            let blocks = document_blocks(content@);
            match sections_read(seq![], blocks, blocks.len() as int) {
                (v, None) => Ok(v),
                (_, Some(e)) => Err(complaint + e),
            }
        },
    }
}

fn find_place(v: &Vec<SpecSection>, id: &str) -> (r: Option<usize>)
    ensures
        match r {
            Some(i) => place(spec_types::section_views(v@), id@) == Some(i as int) && i < v@.len(),
            None => place(spec_types::section_views(v@), id@) is None,
        },
{
    let ghost sv = spec_types::section_views(v@);
    let mut i: usize = 0;
    while i < v.len()
        invariant
            i <= v.len(),
            sv == spec_types::section_views(v@),
            place(sv, id@) == place_from(sv, id@, i as int),
        decreases v.len() - i,
    {
        proof {
            assert(sv[i as int].id == v@[i as int].id@);
        }
        if same(v[i].id.as_str(), id) {
            return Some(i);
        }
        i += 1;
    }
    None
}

fn add_section(v: &mut Vec<SpecSection>, s: SpecSection)
    ensures
        spec_types::section_views(final(v)@) == with_section(
            spec_types::section_views(old(v)@),
            s@,
        ),
{
    let ghost had = spec_types::section_views(v@);
    let ghost sv = s@;
    match find_place(v, s.id.as_str()) {
        Some(i) => {
            v.set(i, s);
            proof {
                assert(spec_types::section_views(v@) =~= had.update(i as int, sv));
            }
        },
        None => {
            v.push(s);
            proof {
                assert(spec_types::section_views(v@) =~= had.push(sv));
            }
        },
    }
}

fn new_section(b: &RawSection) -> (r: SpecSection)
    ensures
        r@ == bare_section(b@),
{
    let r = SpecSection {
        id: b.id.as_str().to_owned(),
        title: b.title.as_str().to_owned(),
        functions: Vec::new(),
        theorems: Vec::new(),
        constants: Vec::new(),
        standalone_properties: Vec::new(),
        formulas: Vec::new(),
        content: String::new(),
    };
    proof {
        assert(r@ =~= bare_section(b@));
    }
    r
}

/// A section with everything that is read out of it.
pub fn parse_section(b: &RawSection) -> (r: Result<SpecSection, String>)
    ensures
        match r {
            Ok(s) => section_read(b@) == Ok::<SectionView, Seq<char>>(s@),
            Err(e) => section_read(b@) == Err::<SectionView, Seq<char>>(e@),
        },
{
    let text = join(b.lines.as_slice(), "\n");
    let id = b.id.as_str();
    let content = text.as_str();
    let found = crate::patterns::captures_iter(crate::spec_extract::FUNCTION_HEAD, content);
    proof {
        assert(patterns::found_views(found@).len() == found@.len());
    }
    let mut functions = read_functions(&found, id, content);
    let constants = match extract_constants_from_section(id, content) {
        Ok(c) => c,
        Err(e) => {
            return Err(e);
        },
    };
    let standalone_properties = extract_standalone_properties(id, content);
    let ghost had = functions@;
    if let Some(f) = extract_implementation_invariants(id, content) {
        let ghost fv = f@;
        functions.push(f);
        proof {
            assert(spec_types::function_views(functions@) =~= spec_types::function_views(had).push(
                fv,
            ));
        }
    }
    let formulas = extract_formulas(id, content);
    let theorems: Vec<Theorem> = Vec::new();
    proof {
        assert(spec_types::theorem_views(theorems@) =~= seq![]);
    }
    Ok(
        SpecSection {
            id: id.to_owned(),
            title: b.title.as_str().to_owned(),
            functions,
            theorems,
            constants,
            standalone_properties,
            formulas,
            content: text,
        },
    )
}

proof fn lemma_sections_stop(v: Seq<SectionView>, blocks: Seq<BlockView>, k: int, n: int)
    requires
        0 <= k <= n <= blocks.len(),
        sections_read(v, blocks, k).1 is Some,
    ensures
        sections_read(v, blocks, n) == sections_read(v, blocks, k),
    decreases n - k,
{
    if k < n {
        lemma_sections_stop(v, blocks, k, n - 1);
    }
}

proof fn lemma_merge_stops(v: Seq<SectionView>, w: Seq<SectionView>, k: int, n: int)
    requires
        0 <= k <= n <= w.len(),
        merged(v, w, k).1 is Some,
    ensures
        merged(v, w, n) == merged(v, w, k),
    decreases n - k,
{
    if k < n {
        lemma_merge_stops(v, w, k, n - 1);
    }
}

#[verifier::loop_isolation(false)]
fn read_sections(v: &mut Vec<SpecSection>, blocks: &Vec<RawSection>) -> (r: Result<(), String>)
    ensures
        (spec_types::section_views(final(v)@), fault_of(r)) == sections_read(
            spec_types::section_views(old(v)@),
            block_views(blocks@),
            blocks@.len() as int,
        ),
        distinct(spec_types::section_views(old(v)@)) ==> distinct(
            spec_types::section_views(final(v)@),
        ),
{
    let ghost had = spec_types::section_views(v@);
    let ghost bv = block_views(blocks@);
    let mut i: usize = 0;
    while i < blocks.len()
        invariant
            i <= blocks.len(),
            bv == block_views(blocks@),
            sections_read(had, bv, i as int) == (spec_types::section_views(v@), None::<Seq<char>>),
            distinct(had) ==> distinct(spec_types::section_views(v@)),
        decreases blocks.len() - i,
    {
        let ghost now = spec_types::section_views(v@);
        proof {
            assert(bv[i as int] == blocks@[i as int]@);
            assert(bv.len() == blocks@.len());
        }
        match parse_section(&blocks[i]) {
            Ok(s) => {
                proof {
                    if distinct(now) {
                        law_adding_keeps_numbers_distinct(now, s@);
                    }
                }
                add_section(v, s);
            },
            Err(e) => {
                let bare = new_section(&blocks[i]);
                proof {
                    if distinct(now) {
                        law_adding_keeps_numbers_distinct(now, bare@);
                    }
                    lemma_sections_stop(had, bv, i + 1, bv.len() as int);
                }
                add_section(v, bare);
                return Err(e);
            },
        }
        i += 1;
    }
    Ok(())
}

#[verifier::loop_isolation(false)]
fn merge_sections(v: &mut Vec<SpecSection>, other: Vec<SpecSection>) -> (r: Result<(), String>)
    ensures
        (spec_types::section_views(final(v)@), fault_of(r)) == merged(
            spec_types::section_views(old(v)@),
            spec_types::section_views(other@),
            other@.len() as int,
        ),
        distinct(spec_types::section_views(old(v)@)) ==> distinct(
            spec_types::section_views(final(v)@),
        ),
{
    let ghost had = spec_types::section_views(v@);
    let ghost wv = spec_types::section_views(other@);
    let ghost n = other@.len() as int;
    let mut rest = other;
    let ghost mut i: int = 0;
    proof {
        assert(wv.len() == n);
        assert(wv.skip(0) =~= wv);
    }
    while rest.len() > 0
        invariant
            0 <= i <= n,
            wv.len() == n,
            n == i + rest@.len(),
            spec_types::section_views(rest@) == wv.skip(i),
            merged(had, wv, i) == (spec_types::section_views(v@), None::<Seq<char>>),
            distinct(had) ==> distinct(spec_types::section_views(v@)),
        decreases rest.len(),
    {
        let ghost before = rest@;
        let ghost now = spec_types::section_views(v@);
        let s = rest.remove(0);
        proof {
            assert(spec_types::section_views(before)[0] == s@);
            assert(wv.skip(i)[0] == wv[i]);
            assert(spec_types::section_views(rest@) =~= wv.skip(i + 1)) by {
                assert(spec_types::section_views(rest@) =~= spec_types::section_views(before).skip(
                    1,
                ));
                assert(wv.skip(i).skip(1) =~= wv.skip(i + 1));
            }
            lemma_place(now, s.id@, 0);
        }
        match find_place(v, s.id.as_str()) {
            Some(_) => {
                proof {
                    lemma_merge_stops(had, wv, i + 1, n);
                }
                return Err(cat("Duplicate section ID: ", s.id.as_str()));
            },
            None => {
                let ghost sv = s@;
                v.push(s);
                proof {
                    assert(spec_types::section_views(v@) =~= now.push(sv));
                }
            },
        }
        proof {
            i = i + 1;
        }
    }
    Ok(())
}

impl SpecParser {
    #[verifier::type_invariant]
    spec fn numbers_distinct(self) -> bool {
        distinct(spec_types::section_views(self.sections@))
    }

    /// The text.
    pub closed spec fn text(&self) -> Seq<char> {
        self.content@
    }

    /// The sections that were read.
    pub closed spec fn read(&self) -> Seq<SectionView> {
        spec_types::section_views(self.sections@)
    }

    /// A specification of which nothing is read yet.
    pub fn new(content: String) -> (r: SpecParser)
        ensures
            r.text() == content@,
            r.read() == Seq::<SectionView>::empty(),
            distinct(r.read()),
    {
        let sections: Vec<SpecSection> = Vec::new();
        proof {
            assert(spec_types::section_views(sections@) =~= seq![]);
        }
        SpecParser { content, sections }
    }

    /// Reads the sections out of the text. Reading stops at the first section with a constant that
    /// is not understood.
    pub fn parse(&mut self) -> (r: Result<(), String>)
        ensures
            final(self).text() == old(self).text(),
            ({
                let blocks = document_blocks(old(self).text());
                (final(self).read(), fault_of(r)) == sections_read(
                    old(self).read(),
                    blocks,
                    blocks.len() as int,
                )
            }),
            distinct(final(self).read()),
    {
        proof {
            use_type_invariant(&*self);
        }
        let lines = lines_of(self.content.as_str());
        let heads = read_heads(&lines);
        let blocks = split_sections(&lines, &heads);
        proof {
            assert(text::views(lines@).len() == lines@.len());
            assert(block_views(blocks@).len() == blocks@.len());
        }
        let mut all: Vec<SpecSection> = Vec::new();
        std::mem::swap(&mut all, &mut self.sections);
        let r = read_sections(&mut all, &blocks);
        self.sections = all;
        r
    }

    /// Adds the sections of another specification. Fails on the first number that is there already.
    pub fn merge(&mut self, other: SpecParser) -> (r: Result<(), String>)
        ensures
            final(self).text() == old(self).text(),
            (final(self).read(), fault_of(r)) == merged(
                old(self).read(),
                other.read(),
                other.read().len() as int,
            ),
            distinct(final(self).read()),
    {
        proof {
            use_type_invariant(&*self);
        }
        let mut all: Vec<SpecSection> = Vec::new();
        std::mem::swap(&mut all, &mut self.sections);
        let rest = other.sections;
        proof {
            assert(spec_types::section_views(rest@).len() == rest@.len());
        }
        let r = merge_sections(&mut all, rest);
        self.sections = all;
        r
    }

    fn from_file(file: &SpecFile, complaint: &str) -> (r: Result<SpecParser, String>)
        ensures
            match r {
                Ok(p) => file_read(*file, complaint@) == Ok::<Seq<SectionView>, Seq<char>>(p.read()),
                Err(e) => file_read(*file, complaint@) == Err::<Seq<SectionView>, Seq<char>>(e@),
            },
    {
        match &file.1 {
            Err(e) => Err(e.as_str().to_owned()),
            Ok(content) => {
                let mut p = SpecParser::new(content.as_str().to_owned());
                match p.parse() {
                    Ok(()) => Ok(p),
                    Err(e) => Err(cat(complaint, e.as_str())),
                }
            },
        }
    }

    /// A specification of one or more files. Their sections are put together; a number that occurs
    /// in two files is an error.
    pub fn from_files(files: &Vec<SpecFile>) -> (r: Result<SpecParser, String>)
        ensures
            match r {
                Ok(p) => files_read(files@, files@.len() as int) == Ok::<
                    Seq<SectionView>,
                    Seq<char>,
                >(p.read()),
                Err(e) => files_read(files@, files@.len() as int) == Err::<
                    Seq<SectionView>,
                    Seq<char>,
                >(e@),
            },
    {
        if files.len() == 0 {
            return Err("At least one spec path required".to_owned());
        }
        let mut all = match SpecParser::from_file(&files[0], "Failed to parse spec: ") {
            Ok(p) => p,
            Err(e) => {
                proof {
                    lemma_files_stop(files@, 1, files@.len() as int);
                }
                return Err(e);
            },
        };
        let mut i: usize = 1;
        while i < files.len()
            invariant
                1 <= i <= files.len(),
                files_read(files@, i as int) == Ok::<Seq<SectionView>, Seq<char>>(all.read()),
            decreases files.len() - i,
        {
            let complaint = cat3("Failed to parse spec ", files[i].0.as_str(), ": ");
            let one = match SpecParser::from_file(&files[i], complaint.as_str()) {
                Ok(p) => p,
                Err(e) => {
                    proof {
                        lemma_files_stop(files@, i + 1, files@.len() as int);
                    }
                    return Err(e);
                },
            };
            if let Err(e) = all.merge(one) {
                proof {
                    lemma_files_stop(files@, i + 1, files@.len() as int);
                }
                return Err(e);
            }
            i += 1;
        }
        Ok(all)
    }
}

proof fn lemma_files_stop(files: Seq<SpecFile>, k: int, n: int)
    requires
        1 <= k <= n <= files.len(),
        files_read(files, k) is Err,
    ensures
        files_read(files, n) == files_read(files, k),
    decreases n - k,
{
    if k < n {
        lemma_files_stop(files, k, n - 1);
    }
}

// ---------------------------------------------------------------------------
// Where things stand
// ---------------------------------------------------------------------------
/// The number of a character, of a capital ASCII letter that of the small one.
pub open spec fn folded(c: char) -> int {
    if 'A' <= c && c <= 'Z' {
        c as int + 32
    } else {
        c as int
    }
}

/// Texts that are equal but for the case of ASCII letters.
pub open spec fn same_ignoring_case(a: Seq<char>, b: Seq<char>) -> bool {
    a.len() == b.len() && forall|i: int| 0 <= i < a.len() ==> folded(#[trigger] a[i]) == folded(b[i])
}

fn fold(c: char) -> (r: u32)
    ensures
        r == folded(c),
{
    if 'A' <= c && c <= 'Z' {
        c as u32 + 32
    } else {
        c as u32
    }
}

/// Whether texts are equal but for the case of ASCII letters.
pub fn eq_ignoring_case(a: &str, b: &str) -> (r: bool)
    ensures
        r == same_ignoring_case(a@, b@),
{
    let v = to_chars(a);
    let w = to_chars(b);
    if v.len() != w.len() {
        return false;
    }
    let mut i: usize = 0;
    while i < v.len()
        invariant
            i <= v.len(),
            v@ == a@,
            w@ == b@,
            v.len() == w.len(),
            forall|k: int| 0 <= k < i ==> folded(#[trigger] a@[k]) == folded(b@[k]),
        decreases v.len() - i,
    {
        if fold(v[i]) != fold(w[i]) {
            assert(folded(a@[i as int]) != folded(b@[i as int]));
            return false;
        }
        i += 1;
    }
    true
}

/// The place of the function `name` among those from `i` on, whatever the case of its letters.
pub open spec fn named_from(fs: Seq<FunctionView>, name: Seq<char>, i: int) -> Option<int>
    decreases fs.len() - i,
{
    if i < 0 || i >= fs.len() {
        None
    } else if same_ignoring_case(fs[i].name, name) {
        Some(i)
    } else {
        named_from(fs, name, i + 1)
    }
}

/// The place of the function that is named exactly `name` among those from `i` on.
pub open spec fn exact_from(fs: Seq<FunctionView>, name: Seq<char>, i: int) -> Option<int>
    decreases fs.len() - i,
{
    if i < 0 || i >= fs.len() {
        None
    } else if fs[i].name == name {
        Some(i)
    } else {
        exact_from(fs, name, i + 1)
    }
}

/// The place of a function in a section: the one with the name, or else the one that stands for the
/// invariants; without a name the first one.
pub open spec fn function_place(fs: Seq<FunctionView>, name: Option<Seq<char>>) -> Option<int> {
    match name {
        Some(n) => if named_from(fs, n, 0) is Some {
            named_from(fs, n, 0)
        } else {
            exact_from(fs, "*"@, 0)
        },
        None => if fs.len() > 0 {
            Some(0)
        } else {
            None
        },
    }
}

/// A function of a section.
pub open spec fn function_found(
    v: Seq<SectionView>,
    section: Seq<char>,
    name: Option<Seq<char>>,
) -> Option<FunctionView> {
    match section_at(v, section) {
        Some(s) => match function_place(s.functions, name) {
            Some(p) => Some(s.functions[p]),
            None => None,
        },
        None => None,
    }
}

/// The function `name` in the first section from `i` on that has one.
pub open spec fn found_anywhere(v: Seq<SectionView>, name: Seq<char>, i: int) -> Option<
    (FunctionView, Seq<char>),
>
    decreases v.len() - i,
{
    if i < 0 || i >= v.len() {
        None
    } else {
        match named_from(v[i].functions, name, 0) {
            Some(p) => Some((v[i].functions[p], v[i].id)),
            None => found_anywhere(v, name, i + 1),
        }
    }
}

/// The function that is named exactly `name` in the first section from `i` on that has one.
pub open spec fn exact_anywhere(v: Seq<SectionView>, name: Seq<char>, i: int) -> Option<FunctionView>
    decreases v.len() - i,
{
    if i < 0 || i >= v.len() {
        None
    } else {
        match exact_from(v[i].functions, name, 0) {
            Some(p) => Some(v[i].functions[p]),
            None => exact_anywhere(v, name, i + 1),
        }
    }
}

/// The function `name`, whatever the case of its letters.
pub fn find_named<'a>(fs: &'a Vec<FunctionSpec>, name: &str) -> (r: Option<&'a FunctionSpec>)
    ensures
        match r {
            Some(f) => named_from(spec_types::function_views(fs@), name@, 0) matches Some(p)
                && spec_types::function_views(fs@)[p] == f@,
            None => named_from(spec_types::function_views(fs@), name@, 0) is None,
        },
{
    let ghost fv = spec_types::function_views(fs@);
    let mut i: usize = 0;
    while i < fs.len()
        invariant
            i <= fs.len(),
            fv == spec_types::function_views(fs@),
            named_from(fv, name@, 0) == named_from(fv, name@, i as int),
        decreases fs.len() - i,
    {
        proof {
            assert(fv[i as int] == fs@[i as int]@);
        }
        if eq_ignoring_case(fs[i].name.as_str(), name) {
            return Some(&fs[i]);
        }
        i += 1;
    }
    None
}

fn find_exact<'a>(fs: &'a Vec<FunctionSpec>, name: &str) -> (r: Option<&'a FunctionSpec>)
    ensures
        match r {
            Some(f) => exact_from(spec_types::function_views(fs@), name@, 0) matches Some(p)
                && spec_types::function_views(fs@)[p] == f@,
            None => exact_from(spec_types::function_views(fs@), name@, 0) is None,
        },
{
    let ghost fv = spec_types::function_views(fs@);
    let mut i: usize = 0;
    while i < fs.len()
        invariant
            i <= fs.len(),
            fv == spec_types::function_views(fs@),
            exact_from(fv, name@, 0) == exact_from(fv, name@, i as int),
        decreases fs.len() - i,
    {
        proof {
            assert(fv[i as int] == fs@[i as int]@);
        }
        if same(fs[i].name.as_str(), name) {
            return Some(&fs[i]);
        }
        i += 1;
    }
    None
}

/// The input and the output of a signature, where there is one arrow in it.
pub open spec fn signature_parts(sig: Seq<char>) -> Option<(Seq<char>, Seq<char>)> {
    let parts = text::parts(sig, "→"@);
    if (text::holds(sig, "→"@) || text::holds(sig, "->"@)) && parts.len() == 2 {
        Some((chars::trimmed(parts[0]), chars::trimmed(parts[1])))
    } else {
        None
    }
}

/// The names by which a theorem may speak of a function.
pub open spec fn name_variants(name: Seq<char>, lower: Seq<char>) -> Seq<Seq<char>> {
    seq![lower, name, r"\text{"@ + name + "}"@, r"\text{"@ + lower + "}"@]
}

/// Whether a theorem speaks of a function, by its statement in lower case.
pub open spec fn theorem_speaks(statement: Seq<char>, lower: Seq<char>, variants: Seq<Seq<char>>) -> bool {
    exists|i: int|
        0 <= i < variants.len() && (text::holds(lower, #[trigger] variants[i]) || text::holds(
            statement,
            variants[i],
        ))
}

/// Whether a theorem speaks of the function `name`.
pub open spec fn theorem_on(t: TheoremView, name: Seq<char>) -> bool {
    theorem_speaks(
        t.statement,
        chars::unicode_lower(t.statement),
        name_variants(name, chars::unicode_lower(name)),
    )
}

/// The place of the first theorem from `i` on that speaks of the function `name`.
pub open spec fn theorem_from(ts: Seq<TheoremView>, name: Seq<char>, i: int) -> Option<int>
    decreases ts.len() - i,
{
    if i < 0 || i >= ts.len() {
        None
    } else if theorem_on(ts[i], name) {
        Some(i)
    } else {
        theorem_from(ts, name, i + 1)
    }
}

/// The first theorem that speaks of the function `name` in a section from `i` on that has this
/// function: the theorem, the number of the section and the name there.
pub open spec fn theorem_found(v: Seq<SectionView>, name: Seq<char>, i: int) -> Option<
    (TheoremView, Seq<char>, Seq<char>),
>
    decreases v.len() - i,
{
    if i < 0 || i >= v.len() {
        None
    } else {
        match (theorem_from(v[i].theorems, name, 0), named_from(v[i].functions, name, 0)) {
            (Some(t), Some(f)) => Some((v[i].theorems[t], v[i].id, v[i].functions[f].name)),
            _ => theorem_found(v, name, i + 1),
        }
    }
}

/// The section that a number with one part more belongs to.
pub open spec fn parent_number(id: Seq<char>) -> Option<Seq<char>> {
    let parts = text::parts(id, "."@);
    if parts.len() >= 2 {
        Some(text::joined(parts.drop_last(), "."@))
    } else {
        None
    }
}

/// Whether a section speaks of the subsection `id`.
pub open spec fn has_subsection(s: SectionView, id: Seq<char>) -> bool {
    text::holds(s.content, id) || exists|i: int|
        0 <= i < s.theorems.len() && (#[trigger] s.theorems[i]).number == id
}

/// The section that the subsection `id` belongs to, where it speaks of it.
pub open spec fn subsection_found(v: Seq<SectionView>, id: Seq<char>) -> Option<SectionView> {
    match parent_number(id) {
        Some(p) => match section_at(v, p) {
            Some(s) => if has_subsection(s, id) {
                Some(s)
            } else {
                None
            },
            None => None,
        },
        None => None,
    }
}

fn speaks(t: &Theorem, name: &str, lower: &str) -> (r: bool)
    requires
        lower@ == chars::unicode_lower(name@),
    ensures
        r == theorem_on(t@, name@),
{
    let statement = t.statement.as_str();
    let statement_lower = to_lowercase(statement);
    let a = cat3(r"\text{", name, "}");
    let b = cat3(r"\text{", lower, "}");
    let ghost vs = name_variants(name@, lower@);
    let l = statement_lower.as_str();
    if contains(l, lower) || contains(statement, lower) {
        assert(text::holds(l@, vs[0]) || text::holds(statement@, vs[0]));
        return true;
    }
    if contains(l, name) || contains(statement, name) {
        assert(text::holds(l@, vs[1]) || text::holds(statement@, vs[1]));
        return true;
    }
    if contains(l, a.as_str()) || contains(statement, a.as_str()) {
        assert(text::holds(l@, vs[2]) || text::holds(statement@, vs[2]));
        return true;
    }
    if contains(l, b.as_str()) || contains(statement, b.as_str()) {
        assert(text::holds(l@, vs[3]) || text::holds(statement@, vs[3]));
        return true;
    }
    false
}

fn find_theorem<'a>(ts: &'a Vec<Theorem>, name: &str, lower: &str) -> (r: Option<&'a Theorem>)
    requires
        lower@ == chars::unicode_lower(name@),
    ensures
        match r {
            Some(t) => theorem_from(spec_types::theorem_views(ts@), name@, 0) matches Some(p)
                && spec_types::theorem_views(ts@)[p] == t@,
            None => theorem_from(spec_types::theorem_views(ts@), name@, 0) is None,
        },
{
    let ghost tv = spec_types::theorem_views(ts@);
    let mut i: usize = 0;
    while i < ts.len()
        invariant
            i <= ts.len(),
            lower@ == chars::unicode_lower(name@),
            tv == spec_types::theorem_views(ts@),
            theorem_from(tv, name@, 0) == theorem_from(tv, name@, i as int),
        decreases ts.len() - i,
    {
        proof {
            assert(tv[i as int] == ts@[i as int]@);
        }
        if speaks(&ts[i], name, lower) {
            return Some(&ts[i]);
        }
        i += 1;
    }
    None
}

fn mentions_subsection(s: &SpecSection, id: &str) -> (r: bool)
    ensures
        r == has_subsection(s@, id@),
{
    if contains(s.content.as_str(), id) {
        return true;
    }
    let ghost tv = spec_types::theorem_views(s.theorems@);
    let mut i: usize = 0;
    while i < s.theorems.len()
        invariant
            i <= s.theorems.len(),
            tv == spec_types::theorem_views(s.theorems@),
            forall|k: int| 0 <= k < i ==> (#[trigger] tv[k]).number != id@,
        decreases s.theorems.len() - i,
    {
        proof {
            assert(tv[i as int] == s.theorems@[i as int]@);
        }
        if same(s.theorems[i].number.as_str(), id) {
            return true;
        }
        i += 1;
    }
    false
}

/// Where a section goes among ordered ones from `i` on: before the first that comes behind it.
pub open spec fn section_slot(v: Seq<SectionView>, number: Seq<char>, i: int) -> int
    decreases v.len() - i,
{
    if i < 0 || i >= v.len() || section_order::section_before(number, v[i].id) {
        i
    } else {
        section_slot(v, number, i + 1)
    }
}

/// The sections of the consensus rules among the first `n`, in the order of their numbers: those
/// whose number starts with `4.`.
pub open spec fn consensus_sections(v: Seq<SectionView>, n: int) -> Seq<SectionView>
    decreases n,
{
    if n <= 0 || n > v.len() {
        seq![]
    } else {
        let done = consensus_sections(v, n - 1);
        if text::starts(v[n - 1].id, "4."@) {
            done.insert(section_slot(done, v[n - 1].id, 0), v[n - 1])
        } else {
            done
        }
    }
}

/// The constants of the first `n` sections, in order.
pub open spec fn constants_of(v: Seq<SectionView>, n: int) -> Seq<ConstantView>
    decreases n,
{
    if n <= 0 || n > v.len() {
        seq![]
    } else {
        constants_of(v, n - 1) + v[n - 1].constants
    }
}

/// The constants of the sections of the consensus rules, in order.
pub open spec fn consensus_constants(v: Seq<SectionView>) -> Seq<ConstantView> {
    let sections = consensus_sections(v, v.len() as int);
    constants_of(sections, sections.len() as int)
}

/// The constants of a section, none where there is no such section.
pub open spec fn constants_at(v: Seq<SectionView>, id: Seq<char>) -> Seq<ConstantView> {
    match section_at(v, id) {
        Some(s) => s.constants,
        None => seq![],
    }
}

/// The functions of a section, none where there is no such section.
pub open spec fn functions_at(v: Seq<SectionView>, id: Seq<char>) -> Seq<FunctionView> {
    match section_at(v, id) {
        Some(s) => s.functions,
        None => seq![],
    }
}

/// The theorems of a section, none where there is no such section.
pub open spec fn theorems_at(v: Seq<SectionView>, id: Seq<char>) -> Seq<TheoremView> {
    match section_at(v, id) {
        Some(s) => s.theorems,
        None => seq![],
    }
}

/// The properties that stand by themselves in the first `n` sections.
pub open spec fn standalone_in(v: Seq<SectionView>, n: int) -> Seq<StandaloneView>
    decreases n,
{
    if n <= 0 || n > v.len() {
        seq![]
    } else {
        standalone_in(v, n - 1) + v[n - 1].standalone_properties
    }
}

/// The formulas with names in the first `n` sections.
pub open spec fn formulas_in(v: Seq<SectionView>, n: int) -> Seq<FormulaView>
    decreases n,
{
    if n <= 0 || n > v.len() {
        seq![]
    } else {
        formulas_in(v, n - 1) + v[n - 1].formulas
    }
}

/// The constants in the first `n` sections.
pub open spec fn constants_in(v: Seq<SectionView>, n: int) -> Seq<ConstantView>
    decreases n,
{
    if n <= 0 || n > v.len() {
        seq![]
    } else {
        constants_in(v, n - 1) + v[n - 1].constants
    }
}

/// The functions among the first `n` that have a formula.
pub open spec fn with_formula(fs: Seq<FunctionView>, n: int) -> Seq<FunctionView>
    decreases n,
{
    if n <= 0 || n > fs.len() {
        seq![]
    } else if fs[n - 1].formula is Some {
        with_formula(fs, n - 1).push(fs[n - 1])
    } else {
        with_formula(fs, n - 1)
    }
}

/// The functions with a formula in the first `n` sections.
pub open spec fn with_formula_in(v: Seq<SectionView>, n: int) -> Seq<FunctionView>
    decreases n,
{
    if n <= 0 || n > v.len() {
        seq![]
    } else {
        with_formula_in(v, n - 1) + with_formula(v[n - 1].functions, v[n - 1].functions.len() as int)
    }
}

/// What references refer to.
pub open spec fn section_refs(v: Seq<&SpecSection>) -> Seq<SectionView> {
    v.map_values(|s: &SpecSection| s@)
}

fn slot_of_section(v: &Vec<&SpecSection>, number: &str) -> (r: usize)
    ensures
        r == section_slot(section_refs(v@), number@, 0),
        r <= v@.len(),
{
    let ghost sv = section_refs(v@);
    let mut i: usize = 0;
    while i < v.len()
        invariant
            i <= v@.len(),
            sv == section_refs(v@),
            section_slot(sv, number@, 0) == section_slot(sv, number@, i as int),
        decreases v@.len() - i,
    {
        proof {
            assert(sv[i as int] == v@[i as int]@);
            assert(sv.len() == v@.len());
        }
        if is_section_before(number, v[i].id.as_str()) {
            return i;
        }
        i += 1;
    }
    proof {
        assert(sv.len() == v@.len());
    }
    i
}

/// What references refer to.
pub open spec fn constant_refs(v: Seq<&ExtractedConstant>) -> Seq<ConstantView> {
    v.map_values(|c: &ExtractedConstant| c@)
}

/// What references refer to.
pub open spec fn function_refs(v: Seq<&FunctionSpec>) -> Seq<FunctionView> {
    v.map_values(|f: &FunctionSpec| f@)
}

/// What references refer to.
pub open spec fn theorem_refs(v: Seq<&Theorem>) -> Seq<TheoremView> {
    v.map_values(|t: &Theorem| t@)
}

/// What references refer to.
pub open spec fn standalone_refs(v: Seq<&StandaloneProperty>) -> Seq<StandaloneView> {
    v.map_values(|p: &StandaloneProperty| p@)
}

/// What references refer to.
pub open spec fn formula_refs(v: Seq<&FormulaSpec>) -> Seq<FormulaView> {
    v.map_values(|f: &FormulaSpec| f@)
}

fn add_constants<'a>(cs: &'a Vec<ExtractedConstant>, out: &mut Vec<&'a ExtractedConstant>)
    ensures
        constant_refs(final(out)@) == constant_refs(old(out)@) + spec_types::constant_views(cs@),
{
    let ghost had = out@;
    let mut i: usize = 0;
    while i < cs.len()
        invariant
            i <= cs.len(),
            out@.len() == had.len() + i,
            forall|k: int| 0 <= k < had.len() ==> out@[k] == had[k],
            forall|k: int| 0 <= k < i ==> *(#[trigger] out@[had.len() + k]) == cs@[k],
        decreases cs.len() - i,
    {
        out.push(&cs[i]);
        i += 1;
    }
    proof {
        assert forall|k: int| 0 <= k < out@.len() implies constant_refs(out@)[k] == (constant_refs(
            had,
        ) + spec_types::constant_views(cs@))[k] by {
            if k >= had.len() {
                assert(*out@[had.len() + (k - had.len())] == cs@[k - had.len()]);
            }
        }
        assert(constant_refs(out@) =~= constant_refs(had) + spec_types::constant_views(cs@));
    }
}

fn add_functions<'a>(fs: &'a Vec<FunctionSpec>, out: &mut Vec<&'a FunctionSpec>)
    ensures
        function_refs(final(out)@) == function_refs(old(out)@) + spec_types::function_views(fs@),
{
    let ghost had = out@;
    let mut i: usize = 0;
    while i < fs.len()
        invariant
            i <= fs.len(),
            out@.len() == had.len() + i,
            forall|k: int| 0 <= k < had.len() ==> out@[k] == had[k],
            forall|k: int| 0 <= k < i ==> *(#[trigger] out@[had.len() + k]) == fs@[k],
        decreases fs.len() - i,
    {
        out.push(&fs[i]);
        i += 1;
    }
    proof {
        assert forall|k: int| 0 <= k < out@.len() implies function_refs(out@)[k] == (function_refs(
            had,
        ) + spec_types::function_views(fs@))[k] by {
            if k >= had.len() {
                assert(*out@[had.len() + (k - had.len())] == fs@[k - had.len()]);
            }
        }
        assert(function_refs(out@) =~= function_refs(had) + spec_types::function_views(fs@));
    }
}

fn add_formulas<'a>(fs: &'a Vec<FormulaSpec>, out: &mut Vec<&'a FormulaSpec>)
    ensures
        formula_refs(final(out)@) == formula_refs(old(out)@) + spec_types::formula_views(fs@),
{
    let ghost had = out@;
    let mut i: usize = 0;
    while i < fs.len()
        invariant
            i <= fs.len(),
            out@.len() == had.len() + i,
            forall|k: int| 0 <= k < had.len() ==> out@[k] == had[k],
            forall|k: int| 0 <= k < i ==> *(#[trigger] out@[had.len() + k]) == fs@[k],
        decreases fs.len() - i,
    {
        out.push(&fs[i]);
        i += 1;
    }
    proof {
        assert forall|k: int| 0 <= k < out@.len() implies formula_refs(out@)[k] == (formula_refs(had)
            + spec_types::formula_views(fs@))[k] by {
            if k >= had.len() {
                assert(*out@[had.len() + (k - had.len())] == fs@[k - had.len()]);
            }
        }
        assert(formula_refs(out@) =~= formula_refs(had) + spec_types::formula_views(fs@));
    }
}

fn add_standalone<'a>(ps: &'a Vec<StandaloneProperty>, out: &mut Vec<&'a StandaloneProperty>)
    ensures
        standalone_refs(final(out)@) == standalone_refs(old(out)@) + spec_types::standalone_views(
            ps@,
        ),
{
    let ghost had = out@;
    let mut i: usize = 0;
    while i < ps.len()
        invariant
            i <= ps.len(),
            out@.len() == had.len() + i,
            forall|k: int| 0 <= k < had.len() ==> out@[k] == had[k],
            forall|k: int| 0 <= k < i ==> *(#[trigger] out@[had.len() + k]) == ps@[k],
        decreases ps.len() - i,
    {
        out.push(&ps[i]);
        i += 1;
    }
    proof {
        assert forall|k: int| 0 <= k < out@.len() implies standalone_refs(out@)[k] == (
        standalone_refs(had) + spec_types::standalone_views(ps@))[k] by {
            if k >= had.len() {
                assert(*out@[had.len() + (k - had.len())] == ps@[k - had.len()]);
            }
        }
        assert(standalone_refs(out@) =~= standalone_refs(had) + spec_types::standalone_views(ps@));
    }
}

fn add_with_formula<'a>(fs: &'a Vec<FunctionSpec>, out: &mut Vec<&'a FunctionSpec>)
    ensures
        function_refs(final(out)@) == function_refs(old(out)@) + with_formula(
            spec_types::function_views(fs@),
            fs@.len() as int,
        ),
{
    let ghost had = function_refs(out@);
    let ghost fv = spec_types::function_views(fs@);
    let mut i: usize = 0;
    proof {
        assert(had + Seq::<FunctionView>::empty() =~= had);
    }
    while i < fs.len()
        invariant
            i <= fs.len(),
            fv == spec_types::function_views(fs@),
            function_refs(out@) == had + with_formula(fv, i as int),
        decreases fs.len() - i,
    {
        proof {
            assert(fv[i as int] == fs@[i as int]@);
        }
        if fs[i].formula.is_some() {
            let ghost now = out@;
            out.push(&fs[i]);
            proof {
                assert(function_refs(out@) =~= function_refs(now).push(fv[i as int]));
                assert((had + with_formula(fv, i as int)).push(fv[i as int]) =~= had + with_formula(
                    fv,
                    i as int,
                ).push(fv[i as int]));
            }
        }
        i += 1;
    }
}

impl SpecParser {
    /// The sections, in the order in which their numbers were first read.
    pub fn iter_sections(&self) -> (r: &Vec<SpecSection>)
        ensures
            spec_types::section_views(r@) == self.read(),
            distinct(self.read()),
    {
        proof {
            use_type_invariant(self);
        }
        &self.sections
    }

    /// The section with a number.
    pub fn find_section(&self, section_id: &str) -> (r: Option<&SpecSection>)
        ensures
            match r {
                Some(s) => section_at(self.read(), section_id@) == Some(s@),
                None => section_at(self.read(), section_id@) is None,
            },
    {
        match find_place(&self.sections, section_id) {
            Some(i) => {
                proof {
                    assert(self.read()[i as int] == self.sections@[i as int]@);
                }
                Some(&self.sections[i])
            },
            None => None,
        }
    }

    /// A function of a section. Where the section has none of the name, the one that stands for its
    /// invariants; without a name the first one.
    pub fn find_function(&self, section: &str, name: Option<&str>) -> (r: Option<&FunctionSpec>)
        ensures
            match r {
                Some(f) => function_found(
                    self.read(),
                    section@,
                    match name {
                        Some(n) => Some(n@),
                        None => None,
                    },
                ) == Some(f@),
                None => function_found(
                    self.read(),
                    section@,
                    match name {
                        Some(n) => Some(n@),
                        None => None,
                    },
                ) is None,
            },
    {
        let s = match self.find_section(section) {
            Some(s) => s,
            None => {
                return None;
            },
        };
        match name {
            Some(n) => match find_named(&s.functions, n) {
                Some(f) => Some(f),
                None => find_exact(&s.functions, "*"),
            },
            None => {
                if s.functions.len() > 0 {
                    proof {
                        assert(s@.functions[0] == s.functions@[0]@);
                    }
                    Some(&s.functions[0])
                } else {
                    None
                }
            },
        }
    }

    /// The functions of a section.
    pub fn get_section_functions(&self, section: &str) -> (r: Vec<&FunctionSpec>)
        ensures
            function_refs(r@) == functions_at(self.read(), section@),
    {
        let mut out: Vec<&FunctionSpec> = Vec::new();
        proof {
            assert(function_refs(out@) =~= seq![]);
        }
        if let Some(s) = self.find_section(section) {
            add_functions(&s.functions, &mut out);
            proof {
                assert(Seq::<FunctionView>::empty() + s@.functions =~= s@.functions);
            }
        }
        out
    }

    /// The input and the output of a signature.
    pub fn parse_signature(sig: &str) -> (r: Option<(Vec<String>, String)>)
        ensures
            match r {
                Some((i, o)) => signature_parts(sig@) matches Some(p) && text::views(i@) == seq![p.0]
                    && o@ == p.1,
                None => signature_parts(sig@) is None,
            },
    {
        proof {
            reveal_strlit("→");
        }
        let parts = split(sig, "→");
        proof {
            assert(text::views(parts@).len() == parts@.len());
        }
        if (contains(sig, "→") || contains(sig, "->")) && parts.len() == 2 {
            proof {
                assert(text::views(parts@)[0] == parts@[0]@);
                assert(text::views(parts@)[1] == parts@[1]@);
            }
            let mut input: Vec<String> = Vec::new();
            input.push(trim(parts[0].as_str()));
            proof {
                assert(text::views(input@) =~= seq![chars::trimmed(parts@[0]@)]);
            }
            Some((input, trim(parts[1].as_str())))
        } else {
            None
        }
    }

    /// The function `name` in the first section that has one, with the number of that section.
    pub fn find_function_anywhere(&self, func_name: &str) -> (r: Option<(&FunctionSpec, &str)>)
        ensures
            match r {
                Some((f, id)) => found_anywhere(self.read(), func_name@, 0) == Some((f@, id@)),
                None => found_anywhere(self.read(), func_name@, 0) is None,
            },
    {
        let mut i: usize = 0;
        while i < self.sections.len()
            invariant
                i <= self.sections.len(),
                found_anywhere(self.read(), func_name@, 0) == found_anywhere(
                    self.read(),
                    func_name@,
                    i as int,
                ),
            decreases self.sections.len() - i,
        {
            proof {
                assert(self.read()[i as int] == self.sections@[i as int]@);
            }
            if let Some(f) = find_named(&self.sections[i].functions, func_name) {
                return Some((f, self.sections[i].id.as_str()));
            }
            i += 1;
        }
        None
    }

    /// The first theorem that speaks of a function, in a section that has this function.
    pub fn find_theorem_by_function_name(&self, func_name: &str) -> (r: Option<
        (&Theorem, &str, &str),
    >)
        ensures
            match r {
                Some((t, id, n)) => theorem_found(self.read(), func_name@, 0) == Some(
                    (t@, id@, n@),
                ),
                None => theorem_found(self.read(), func_name@, 0) is None,
            },
    {
        let lower = to_lowercase(func_name);
        let mut i: usize = 0;
        while i < self.sections.len()
            invariant
                i <= self.sections.len(),
                lower@ == chars::unicode_lower(func_name@),
                theorem_found(self.read(), func_name@, 0) == theorem_found(
                    self.read(),
                    func_name@,
                    i as int,
                ),
            decreases self.sections.len() - i,
        {
            proof {
                assert(self.read()[i as int] == self.sections@[i as int]@);
            }
            let s = &self.sections[i];
            if let Some(t) = find_theorem(&s.theorems, func_name, lower.as_str()) {
                if let Some(f) = find_named(&s.functions, func_name) {
                    return Some((t, s.id.as_str(), f.name.as_str()));
                }
            }
            i += 1;
        }
        None
    }

    /// The section that a subsection belongs to, where the section speaks of it.
    pub fn find_subsection(&self, granular_id: &str) -> (r: Option<(&SpecSection, String)>)
        ensures
            match r {
                Some((s, id)) => subsection_found(self.read(), granular_id@) == Some(s@) && id@
                    == granular_id@,
                None => subsection_found(self.read(), granular_id@) is None,
            },
    {
        proof {
            reveal_strlit(".");
        }
        let mut parts = split(granular_id, ".");
        proof {
            assert(text::views(parts@).len() == parts@.len());
        }
        if parts.len() < 2 {
            return None;
        }
        let ghost all = parts@;
        parts.pop();
        proof {
            assert(text::views(parts@) =~= text::views(all).drop_last());
        }
        let parent = join(parts.as_slice(), ".");
        if let Some(s) = self.find_section(parent.as_str()) {
            if mentions_subsection(s, granular_id) {
                return Some((s, granular_id.to_owned()));
            }
        }
        None
    }

    /// The theorems of a section.
    pub fn get_section_theorems(&self, section_id: &str) -> (r: Vec<&Theorem>)
        ensures
            theorem_refs(r@) == theorems_at(self.read(), section_id@),
    {
        let mut out: Vec<&Theorem> = Vec::new();
        if let Some(s) = self.find_section(section_id) {
            let mut i: usize = 0;
            while i < s.theorems.len()
                invariant
                    i <= s.theorems.len(),
                    out@.len() == i,
                    forall|k: int| 0 <= k < i ==> *(#[trigger] out@[k]) == s.theorems@[k],
                decreases s.theorems.len() - i,
            {
                out.push(&s.theorems[i]);
                i += 1;
            }
            proof {
                assert(theorem_refs(out@) =~= s@.theorems);
            }
            return out;
        }
        proof {
            assert(theorem_refs(out@) =~= seq![]);
        }
        out
    }

    /// The constants of the consensus rules.
    pub fn extract_constants(&self) -> (r: Vec<&ExtractedConstant>)
        ensures
            constant_refs(r@) == consensus_constants(self.read()),
    {
        let mut out: Vec<&ExtractedConstant> = Vec::new();
        proof {
            assert(constant_refs(out@) =~= seq![]);
        }
        let sections = self.sections_of_consensus();
        let ghost sv = section_refs(sections@);
        let mut i: usize = 0;
        while i < sections.len()
            invariant
                i <= sections@.len(),
                sv == section_refs(sections@),
                constant_refs(out@) == constants_of(sv, i as int),
            decreases sections@.len() - i,
        {
            proof {
                assert(sv[i as int] == sections@[i as int]@);
                assert(sv.len() == sections@.len());
            }
            add_constants(&sections[i].constants, &mut out);
            i += 1;
        }
        proof {
            assert(sv.len() == sections@.len());
        }
        out
    }

    /// The sections of the consensus rules, in the order of their numbers.
    fn sections_of_consensus(&self) -> (r: Vec<&SpecSection>)
        ensures
            section_refs(r@) == consensus_sections(self.read(), self.read().len() as int),
    {
        let ghost all = self.read();
        let mut out: Vec<&SpecSection> = Vec::new();
        let mut i: usize = 0;
        proof {
            assert(section_refs(out@) =~= seq![]);
            assert(all.len() == self.sections@.len());
        }
        while i < self.sections.len()
            invariant
                i <= self.sections@.len(),
                all == spec_types::section_views(self.sections@),
                all.len() == self.sections@.len(),
                section_refs(out@) == consensus_sections(all, i as int),
            decreases self.sections@.len() - i,
        {
            let ghost had = section_refs(out@);
            proof {
                assert(all[i as int] == self.sections@[i as int]@);
            }
            let number = self.sections[i].id.as_str();
            if starts_with(number, "4.") {
                let p = slot_of_section(&out, number);
                out.insert(p, &self.sections[i]);
                proof {
                    assert(section_refs(out@) =~= had.insert(p as int, all[i as int]));
                }
            }
            i += 1;
        }
        out
    }

    fn add_section_constants<'a>(&'a self, section_id: &str, out: &mut Vec<&'a ExtractedConstant>)
        ensures
            constant_refs(final(out)@) == constant_refs(old(out)@) + constants_at(
                self.read(),
                section_id@,
            ),
    {
        let ghost had = constant_refs(out@);
        match self.find_section(section_id) {
            Some(s) => add_constants(&s.constants, out),
            None => {
                proof {
                    assert(had + Seq::<ConstantView>::empty() =~= had);
                }
            },
        }
    }

    /// The constants of a section.
    pub fn get_section_constants(&self, section_id: &str) -> (r: Vec<&ExtractedConstant>)
        ensures
            constant_refs(r@) == constants_at(self.read(), section_id@),
    {
        let mut out: Vec<&ExtractedConstant> = Vec::new();
        self.add_section_constants(section_id, &mut out);
        proof {
            let none: Seq<&ExtractedConstant> = seq![];
            assert(constant_refs(none) =~= seq![]);
            assert(Seq::<ConstantView>::empty() + constants_at(self.read(), section_id@)
                =~= constants_at(self.read(), section_id@));
        }
        out
    }

    /// The properties that stand by themselves, of all sections.
    pub fn get_all_standalone_properties(&self) -> (r: Vec<&StandaloneProperty>)
        ensures
            standalone_refs(r@) == standalone_in(self.read(), self.read().len() as int),
    {
        let mut out: Vec<&StandaloneProperty> = Vec::new();
        let mut i: usize = 0;
        proof {
            assert(standalone_refs(out@) =~= seq![]);
            assert(self.read().len() == self.sections@.len());
        }
        while i < self.sections.len()
            invariant
                i <= self.sections.len(),
                standalone_refs(out@) == standalone_in(self.read(), i as int),
            decreases self.sections.len() - i,
        {
            proof {
                assert(self.read()[i as int] == self.sections@[i as int]@);
            }
            add_standalone(&self.sections[i].standalone_properties, &mut out);
            i += 1;
        }
        out
    }

    /// The formulas with names, of all sections.
    pub fn formulas(&self) -> (r: Vec<&FormulaSpec>)
        ensures
            formula_refs(r@) == formulas_in(self.read(), self.read().len() as int),
    {
        let mut out: Vec<&FormulaSpec> = Vec::new();
        let mut i: usize = 0;
        proof {
            assert(formula_refs(out@) =~= seq![]);
            assert(self.read().len() == self.sections@.len());
        }
        while i < self.sections.len()
            invariant
                i <= self.sections.len(),
                formula_refs(out@) == formulas_in(self.read(), i as int),
            decreases self.sections.len() - i,
        {
            proof {
                assert(self.read()[i as int] == self.sections@[i as int]@);
            }
            add_formulas(&self.sections[i].formulas, &mut out);
            i += 1;
        }
        out
    }

    /// The constants of all sections.
    pub fn constants(&self) -> (r: Vec<&ExtractedConstant>)
        ensures
            constant_refs(r@) == constants_in(self.read(), self.read().len() as int),
    {
        let mut out: Vec<&ExtractedConstant> = Vec::new();
        let mut i: usize = 0;
        proof {
            assert(constant_refs(out@) =~= seq![]);
            assert(self.read().len() == self.sections@.len());
        }
        while i < self.sections.len()
            invariant
                i <= self.sections.len(),
                constant_refs(out@) == constants_in(self.read(), i as int),
            decreases self.sections.len() - i,
        {
            proof {
                assert(self.read()[i as int] == self.sections@[i as int]@);
            }
            add_constants(&self.sections[i].constants, &mut out);
            i += 1;
        }
        out
    }

    /// The functions that have a formula, of all sections.
    pub fn extract_functions_with_formulas(&self) -> (r: Vec<&FunctionSpec>)
        ensures
            function_refs(r@) == with_formula_in(self.read(), self.read().len() as int),
    {
        let mut out: Vec<&FunctionSpec> = Vec::new();
        let mut i: usize = 0;
        proof {
            assert(function_refs(out@) =~= seq![]);
            assert(self.read().len() == self.sections@.len());
        }
        while i < self.sections.len()
            invariant
                i <= self.sections.len(),
                function_refs(out@) == with_formula_in(self.read(), i as int),
            decreases self.sections.len() - i,
        {
            proof {
                assert(self.read()[i as int] == self.sections@[i as int]@);
                let fs = self.sections@[i as int].functions@;
                assert(spec_types::function_views(fs).len() == fs.len());
            }
            add_with_formula(&self.sections[i].functions, &mut out);
            i += 1;
        }
        out
    }

    /// The function with exactly this name, in the first section that has one.
    pub fn get_function(&self, name: &str) -> (r: Option<&FunctionSpec>)
        ensures
            match r {
                Some(f) => exact_anywhere(self.read(), name@, 0) == Some(f@),
                None => exact_anywhere(self.read(), name@, 0) is None,
            },
    {
        let mut i: usize = 0;
        while i < self.sections.len()
            invariant
                i <= self.sections.len(),
                exact_anywhere(self.read(), name@, 0) == exact_anywhere(
                    self.read(),
                    name@,
                    i as int,
                ),
            decreases self.sections.len() - i,
        {
            proof {
                assert(self.read()[i as int] == self.sections@[i as int]@);
            }
            if let Some(f) = find_exact(&self.sections[i].functions, name) {
                return Some(f);
            }
            i += 1;
        }
        None
    }
}

// ---------------------------------------------------------------------------
// Stable names
// ---------------------------------------------------------------------------
/// Whether a constant among the first `j` has the name of the one at `j`.
pub open spec fn repeated(cs: Seq<ConstantView>, j: int) -> bool {
    exists|i: int| 0 <= i < j && (#[trigger] cs[i]).name == cs[j].name
}

/// The first place from `j` on of a constant whose name an earlier one has.
pub open spec fn repetition_from(cs: Seq<ConstantView>, j: int) -> Option<int>
    decreases cs.len() - j,
{
    if j < 0 || j >= cs.len() {
        None
    } else if repeated(cs, j) {
        Some(j)
    } else {
        repetition_from(cs, j + 1)
    }
}

/// The place of the constant with the stable name `id` among those from `i` on.
pub open spec fn constant_place(cs: Seq<ConstantView>, id: Seq<char>, i: int) -> Option<int>
    decreases cs.len() - i,
{
    if i < 0 || i >= cs.len() {
        None
    } else if "C_"@ + cs[i].name == id {
        Some(i)
    } else {
        constant_place(cs, id, i + 1)
    }
}

/// The constant with a stable name, or which name occurs twice in the specification.
pub open spec fn stable_constant(v: Seq<SectionView>, id: Seq<char>) -> Result<
    Option<ConstantView>,
    Seq<char>,
> {
    let cs = constants_in(v, v.len() as int);
    match repetition_from(cs, 0) {
        Some(j) => Err("Duplicate constant id: C_"@ + cs[j].name),
        None => match constant_place(cs, id, 0) {
            Some(p) => Ok(Some(cs[p])),
            None => Ok(None),
        },
    }
}

/// The place of the formula `id` among those from `i` on.
pub open spec fn formula_place(fs: Seq<FormulaView>, id: Seq<char>, i: int) -> Option<int>
    decreases fs.len() - i,
{
    if i < 0 || i >= fs.len() {
        None
    } else if fs[i].id == id {
        Some(i)
    } else {
        formula_place(fs, id, i + 1)
    }
}

/// The formula with a name.
pub open spec fn stable_formula(v: Seq<SectionView>, id: Seq<char>) -> Option<FormulaView> {
    let fs = formulas_in(v, v.len() as int);
    match formula_place(fs, id, 0) {
        Some(p) => Some(fs[p]),
        None => None,
    }
}

/// Whether a number is another one, or that with parts behind it.
pub open spec fn number_extends(number: Seq<char>, front: Seq<char>) -> bool {
    let a = text::parts(number, "."@);
    let b = text::parts(front, "."@);
    b.len() <= a.len() && a.take(b.len() as int) == b
}

fn is_repeated(cs: &Vec<&ExtractedConstant>, j: usize) -> (r: bool)
    requires
        j < cs@.len(),
    ensures
        r == repeated(constant_refs(cs@), j as int),
{
    let ghost cv = constant_refs(cs@);
    let mut i: usize = 0;
    while i < j
        invariant
            i <= j < cs@.len(),
            cv == constant_refs(cs@),
            forall|k: int| 0 <= k < i ==> (#[trigger] cv[k]).name != cv[j as int].name,
        decreases j - i,
    {
        proof {
            assert(cv[i as int] == cs@[i as int]@);
            assert(cv[j as int] == cs@[j as int]@);
        }
        if same(cs[i].name.as_str(), cs[j].name.as_str()) {
            return true;
        }
        i += 1;
    }
    false
}

fn find_repetition(cs: &Vec<&ExtractedConstant>) -> (r: Option<usize>)
    ensures
        match r {
            Some(j) => repetition_from(constant_refs(cs@), 0) == Some(j as int) && j < cs@.len(),
            None => repetition_from(constant_refs(cs@), 0) is None,
        },
{
    let ghost cv = constant_refs(cs@);
    let mut j: usize = 0;
    while j < cs.len()
        invariant
            j <= cs.len(),
            cv == constant_refs(cs@),
            repetition_from(cv, 0) == repetition_from(cv, j as int),
        decreases cs.len() - j,
    {
        proof {
            assert(cv.len() == cs@.len());
        }
        if is_repeated(cs, j) {
            return Some(j);
        }
        j += 1;
    }
    proof {
        assert(cv.len() == cs@.len());
    }
    None
}

/// Whether a number is another one, or that with parts behind it. `5.10` does not extend `5.1`.
#[verifier::loop_isolation(false)]
pub fn section_id_subsumes_formula_section(front: &str, number: &str) -> (r: bool)
    ensures
        r == number_extends(number@, front@),
{
    proof {
        reveal_strlit(".");
    }
    let a = split(number, ".");
    let b = split(front, ".");
    let ghost av = text::views(a@);
    let ghost bv = text::views(b@);
    proof {
        assert(av.len() == a@.len());
        assert(bv.len() == b@.len());
    }
    if a.len() < b.len() {
        return false;
    }
    let mut i: usize = 0;
    while i < b.len()
        invariant
            i <= b.len() <= a.len(),
            av == text::views(a@),
            bv == text::views(b@),
            forall|k: int| 0 <= k < i ==> #[trigger] av[k] == bv[k],
        decreases b.len() - i,
    {
        proof {
            assert(av[i as int] == a@[i as int]@);
            assert(bv[i as int] == b@[i as int]@);
        }
        if !same(a[i].as_str(), b[i].as_str()) {
            proof {
                assert(av.take(bv.len() as int)[i as int] != bv[i as int]);
            }
            return false;
        }
        i += 1;
    }
    proof {
        assert(av.take(bv.len() as int) =~= bv);
    }
    true
}

impl SpecParser {
    /// The constants of all sections by their stable names, or which name occurs twice.
    pub fn constants_stable_id_map(&self) -> (r: Result<Vec<&ExtractedConstant>, String>)
        ensures
            ({
                let cs = constants_in(self.read(), self.read().len() as int);
                match r {
                    Ok(v) => constant_refs(v@) == cs && repetition_from(cs, 0) is None,
                    Err(e) => repetition_from(cs, 0) matches Some(j) && e@
                        == "Duplicate constant id: C_"@ + cs[j].name,
                }
            }),
    {
        let all = self.constants();
        match find_repetition(&all) {
            Some(j) => {
                proof {
                    assert(constant_refs(all@)[j as int] == all@[j as int]@);
                }
                Err(cat("Duplicate constant id: C_", all[j].name.as_str()))
            },
            None => Ok(all),
        }
    }

    /// The constant with a stable name, or which name occurs twice in the specification.
    pub fn stable_constant(&self, id: &str) -> (r: Result<Option<&ExtractedConstant>, String>)
        ensures
            match r {
                Ok(Some(c)) => stable_constant(self.read(), id@) == Ok::<
                    Option<ConstantView>,
                    Seq<char>,
                >(Some(c@)),
                Ok(None) => stable_constant(self.read(), id@) == Ok::<
                    Option<ConstantView>,
                    Seq<char>,
                >(None),
                Err(e) => stable_constant(self.read(), id@) == Err::<
                    Option<ConstantView>,
                    Seq<char>,
                >(e@),
            },
    {
        let all = match self.constants_stable_id_map() {
            Ok(v) => v,
            Err(e) => {
                return Err(e);
            },
        };
        let ghost cv = constant_refs(all@);
        let mut i: usize = 0;
        while i < all.len()
            invariant
                i <= all.len(),
                cv == constant_refs(all@),
                cv == constants_in(self.read(), self.read().len() as int),
                repetition_from(cv, 0) is None,
                constant_place(cv, id@, 0) == constant_place(cv, id@, i as int),
            decreases all.len() - i,
        {
            proof {
                assert(cv[i as int] == all@[i as int]@);
                assert(cv.len() == all@.len());
            }
            let own = cat("C_", all[i].name.as_str());
            if same(own.as_str(), id) {
                return Ok(Some(all[i]));
            }
            i += 1;
        }
        proof {
            assert(cv.len() == all@.len());
        }
        Ok(None)
    }

    /// The formula with a name.
    pub fn stable_formula(&self, id: &str) -> (r: Option<&FormulaSpec>)
        ensures
            match r {
                Some(f) => stable_formula(self.read(), id@) == Some(f@),
                None => stable_formula(self.read(), id@) is None,
            },
    {
        let all = self.formulas();
        let ghost fv = formula_refs(all@);
        let mut i: usize = 0;
        while i < all.len()
            invariant
                i <= all.len(),
                fv == formula_refs(all@),
                fv == formulas_in(self.read(), self.read().len() as int),
                formula_place(fv, id@, 0) == formula_place(fv, id@, i as int),
            decreases all.len() - i,
        {
            proof {
                assert(fv[i as int] == all@[i as int]@);
                assert(fv.len() == all@.len());
            }
            if same(all[i].id.as_str(), id) {
                return Some(all[i]);
            }
            i += 1;
        }
        proof {
            assert(fv.len() == all@.len());
        }
        None
    }
}

/// Every number extends itself.
pub proof fn law_number_extends_itself(number: Seq<char>)
    ensures
        number_extends(number, number),
{
    let a = text::parts(number, "."@);
    assert(a.take(a.len() as int) =~= a);
}

/// A number that extends one that extends a third extends the third.
pub proof fn law_extension_is_transitive(a: Seq<char>, b: Seq<char>, c: Seq<char>)
    requires
        number_extends(a, b),
        number_extends(b, c),
    ensures
        number_extends(a, c),
{
    let x = text::parts(a, "."@);
    let y = text::parts(b, "."@);
    let z = text::parts(c, "."@);
    assert(x.take(z.len() as int) =~= x.take(y.len() as int).take(z.len() as int));
}

/// The number of a section is extended by the numbers of the sections within it, and by no number
/// that only goes on with another digit: `5.1.2` extends `5.1`, and `5.10` does not.
pub proof fn law_only_subsections_extend(number: Seq<char>, rest: Seq<char>, c: char)
    requires
        c != '.',
    ensures
        number_extends(number + "."@ + rest, number),
        !number_extends(number.push(c), number),
        !number_extends(number, number + "."@ + rest),
{
    reveal_strlit(".");
    text::lemma_parts_of_both(number, "."@, rest);
    text::lemma_parts_nonempty(rest, "."@);
    let a = text::parts(number, "."@);
    let b = text::parts(number + "."@ + rest, "."@);
    assert(b.take(a.len() as int) =~= a);
    text::lemma_last_part_grows(number, "."@, c);
    let d = text::parts(number.push(c), "."@);
    assert(d.take(a.len() as int) =~= d);
    assert(a.last().push(c).len() == a.last().len() + 1);
}

/// Names are found whatever the case of their ASCII letters: a name in small letters is the same
/// as the name, and names of which one has another sign are not.
pub proof fn law_case_does_not_matter(a: Seq<char>, b: Seq<char>, i: int)
    ensures
        same_ignoring_case(a, a.map_values(|c: char| chars::ascii_lower(c))),
        same_ignoring_case(a, b) == same_ignoring_case(b, a),
        same_ignoring_case(a, b) ==> a.len() == b.len(),
        same_ignoring_case(a, b) && 0 <= i < a.len() && !chars::ascii_letter(a[i]) ==> a[i] == b[i],
        same_ignoring_case(a, b) && 0 <= i < a.len() ==> chars::ascii_lower(a[i]) == chars::ascii_lower(b[i]),
{
    if same_ignoring_case(a, b) {
        assert forall|k: int| 0 <= k < b.len() implies folded(#[trigger] b[k]) == folded(a[k]) by {
            assert(folded(a[k]) == folded(b[k]));
        }
        if 0 <= i < a.len() {
            assert(folded(a[i]) == folded(b[i]));
        }
    }
    if same_ignoring_case(b, a) {
        assert forall|k: int| 0 <= k < a.len() implies folded(#[trigger] a[k]) == folded(b[k]) by {
            assert(folded(b[k]) == folded(a[k]));
        }
    }
}

proof fn lemma_named_from(fs: Seq<FunctionView>, name: Seq<char>, i: int)
    requires
        0 <= i <= fs.len(),
    ensures
        named_from(fs, name, i) matches Some(p) ==> i <= p < fs.len() && same_ignoring_case(fs[p].name, name)
            && forall|k: int| i <= k < p ==> !same_ignoring_case((#[trigger] fs[k]).name, name),
        named_from(fs, name, i) is None ==> forall|k: int|
            i <= k < fs.len() ==> !same_ignoring_case((#[trigger] fs[k]).name, name),
    decreases fs.len() - i,
{
    if i < fs.len() {
        lemma_named_from(fs, name, i + 1);
    }
}

/// The function of a section is the first with the name that is asked for, and where none has it,
/// none but the one that stands for the invariants of the section.
pub proof fn law_function_has_the_name(fs: Seq<FunctionView>, name: Seq<char>, k: int)
    requires
        0 <= k < fs.len(),
    ensures
        same_ignoring_case(fs[k].name, name) ==> (function_place(fs, Some(name)) matches Some(p) && 0 <= p <= k
            && same_ignoring_case(fs[p].name, name)),
        function_place(fs, Some(name)) matches Some(p) ==> 0 <= p < fs.len() && (same_ignoring_case(
            fs[p].name,
            name,
        ) || fs[p].name == "*"@),
        function_place(fs, None) == Some(0int),
{
    lemma_named_from(fs, name, 0);
    lemma_exact_from(fs, "*"@, 0);
}

proof fn lemma_exact_from(fs: Seq<FunctionView>, name: Seq<char>, i: int)
    requires
        0 <= i <= fs.len(),
    ensures
        exact_from(fs, name, i) matches Some(p) ==> i <= p < fs.len() && fs[p].name == name,
        exact_from(fs, name, i) is None ==> forall|k: int|
            i <= k < fs.len() ==> (#[trigger] fs[k]).name != name,
    decreases fs.len() - i,
{
    if i < fs.len() {
        lemma_exact_from(fs, name, i + 1);
    }
}

proof fn lemma_formula_place(fs: Seq<FormulaView>, id: Seq<char>, i: int)
    requires
        0 <= i <= fs.len(),
    ensures
        formula_place(fs, id, i) matches Some(p) ==> i <= p < fs.len() && fs[p].id == id,
        formula_place(fs, id, i) is None ==> forall|k: int|
            i <= k < fs.len() ==> (#[trigger] fs[k]).id != id,
    decreases fs.len() - i,
{
    if i < fs.len() {
        lemma_formula_place(fs, id, i + 1);
    }
}

/// The formula of a name has that name and is one of the specification, and it is found where
/// there is one.
pub proof fn law_formula_has_its_name(v: Seq<SectionView>, id: Seq<char>, k: int)
    ensures
        stable_formula(v, id) matches Some(f) ==> f.id == id && formulas_in(v, v.len() as int).contains(f),
        0 <= k < formulas_in(v, v.len() as int).len() && formulas_in(v, v.len() as int)[k].id == id
            ==> stable_formula(v, id) is Some,
{
    lemma_formula_place(formulas_in(v, v.len() as int), id, 0);
}

proof fn lemma_constant_place(cs: Seq<ConstantView>, id: Seq<char>, i: int)
    requires
        0 <= i <= cs.len(),
    ensures
        constant_place(cs, id, i) matches Some(p) ==> i <= p < cs.len() && "C_"@ + cs[p].name == id,
        constant_place(cs, id, i) is None ==> forall|k: int|
            i <= k < cs.len() ==> "C_"@ + (#[trigger] cs[k]).name != id,
    decreases cs.len() - i,
{
    if i < cs.len() {
        lemma_constant_place(cs, id, i + 1);
    }
}

proof fn lemma_repetition(cs: Seq<ConstantView>, j: int)
    requires
        0 <= j <= cs.len(),
    ensures
        repetition_from(cs, j) is Some <==> exists|k: int| j <= k < cs.len() && #[trigger] repeated(cs, k),
    decreases cs.len() - j,
{
    if j < cs.len() {
        lemma_repetition(cs, j + 1);
        if repeated(cs, j) {
        } else if repetition_from(cs, j + 1) is Some {
            let k = choose|k: int| j + 1 <= k < cs.len() && #[trigger] repeated(cs, k);
            assert(repeated(cs, k));
        }
    }
}

/// Constants have names of their own or none is found: two with one name are an error, and
/// otherwise the constant that is found has the name, and is found where there is one.
pub proof fn law_constant_has_its_name(v: Seq<SectionView>, id: Seq<char>, i: int, j: int)
    ensures
        ({
            let cs = constants_in(v, v.len() as int);
            &&& 0 <= i < j < cs.len() && cs[i].name == cs[j].name ==> stable_constant(v, id) is Err
            &&& (forall|a: int, b: int|
                0 <= a < b < cs.len() ==> (#[trigger] cs[a]).name != (#[trigger] cs[b]).name)
                ==> stable_constant(v, id) is Ok
            &&& stable_constant(v, id) matches Ok(Some(c)) ==> "C_"@ + c.name == id && cs.contains(c)
            &&& stable_constant(v, id) is Ok && 0 <= i < cs.len() && "C_"@ + cs[i].name == id
                ==> stable_constant(v, id)->Ok_0 is Some
        }),
{
    let cs = constants_in(v, v.len() as int);
    lemma_repetition(cs, 0);
    lemma_constant_place(cs, id, 0);
    if 0 <= i < j < cs.len() && cs[i].name == cs[j].name {
        assert(repeated(cs, j));
    }
    if repetition_from(cs, 0) is Some {
        let k = choose|k: int| 0 <= k < cs.len() && #[trigger] repeated(cs, k);
        let l = choose|l: int| 0 <= l < k && (#[trigger] cs[l]).name == cs[k].name;
        assert(cs[l].name == cs[k].name);
    }
}

/// The section that a number belongs to is the number without its last part.
pub proof fn law_parent_is_the_front(a: Seq<char>, b: Seq<char>)
    requires
        forall|i: int| 0 <= i < b.len() ==> b[i] != '.',
    ensures
        parent_number(a + "."@ + b) == Some(a),
        parent_number(b) is None,
{
    reveal_strlit(".");
    text::lemma_lacks(b, "."@, 0);
    text::lemma_find_has(b, "."@);
    assert(text::parts(b, "."@) == seq![b]);
    text::lemma_parts_of_both(a, "."@, b);
    text::lemma_parts_nonempty(a, "."@);
    let x = text::parts(a, "."@);
    assert((x + seq![b]).drop_last() =~= x);
    text::lemma_joined_parts(a, "."@);
}

} // verus!
