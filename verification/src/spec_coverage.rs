//! How much of a specification can be read, section by section.
use vstd::prelude::*;
use crate::condition;
use crate::condition::is_readable;
use crate::coverage;
use crate::coverage::{
    line_of_share,
    line_of_three,
    witness_rollup_human_blurb,
    witness_rollup_markdown,
    witness_rollup_to_json,
    CoverageStats,
    GroupView,
    SectionFunctions,
    WitnessVerifyRollup,
};
use crate::json;
use crate::json::{compact, figure, list_of_texts, Fields, JsonForm};
use crate::orange_paper::SpecParser;
use crate::report;
use crate::report::{line_of_count, line_of_text, record_all, Recorded};
use crate::section_order;
use crate::section_order::is_section_before;
use crate::sorting;
use crate::sorting::{sort, Ranked};
use crate::spec_types::{ContractView, FunctionSpec, FunctionView, SectionView, SpecSection};
use crate::text;
use crate::text::{count_text, same, shorten};

verus! {

/// How much of a specification can be read.
#[derive(Debug)]
pub struct SpecCoverageReport {
    pub total_spec_functions: usize,
    pub total_contracts: usize,
    pub parseable_contracts: usize,
    pub unparseable_contracts: usize,
    pub impl_functions_with_contracts: usize,
    pub impl_functions_without_contracts: usize,
    pub formulas_defined: usize,
    pub formulas_parseable_body: usize,
    pub formulas_bound_to_rust: usize,
    pub formula_anchor_parse_gate_ok: usize,
    pub formula_anchor_spec_missing_id: usize,
    pub formula_anchor_unparseable_body: usize,
    pub constants_defined: usize,
    pub constants_bound_to_rust: usize,
    pub formulas_verify_rollup: Option<WitnessVerifyRollup>,
    pub constants_verify_rollup: Option<WitnessVerifyRollup>,
    pub by_section: Vec<SpecSectionCoverage>,
}

/// How much of a section can be read.
#[derive(Debug)]
pub struct SpecSectionCoverage {
    pub section_id: String,
    pub spec_functions: usize,
    pub contracts_total: usize,
    pub contracts_parseable: usize,
    /// Functions of the code that name the section.
    pub impl_functions: usize,
    /// The first conditions that cannot be read.
    pub unparseable_examples: Vec<String>,
}

/// `SpecSectionCoverage` as a mathematical value.
#[verifier::ext_equal]
pub struct SectionRow {
    pub section_id: Seq<char>,
    pub spec_functions: nat,
    pub contracts_total: nat,
    pub contracts_parseable: nat,
    pub impl_functions: nat,
    pub unparseable_examples: Seq<Seq<char>>,
}

impl View for SpecSectionCoverage {
    type V = SectionRow;

    open spec fn view(&self) -> SectionRow {
        SectionRow {
            section_id: self.section_id@,
            spec_functions: self.spec_functions as nat,
            contracts_total: self.contracts_total as nat,
            contracts_parseable: self.contracts_parseable as nat,
            impl_functions: self.impl_functions as nat,
            unparseable_examples: text::views(self.unparseable_examples@),
        }
    }
}

/// Rows as mathematical values.
pub open spec fn row_views(v: Seq<SpecSectionCoverage>) -> Seq<SectionRow> {
    v.map_values(|r: SpecSectionCoverage| r@)
}

// ---------------------------------------------------------------------------
// Counting
// ---------------------------------------------------------------------------
/// How many contracts the first `n` functions of a section have.
pub open spec fn contracts_in(s: SectionView, n: int) -> nat
    decreases n,
{
    if n <= 0 || n > s.functions.len() {
        0
    } else {
        contracts_in(s, n - 1) + s.functions[n - 1].contracts.len()
    }
}

/// How many contracts a section has.
pub open spec fn section_contracts(s: SectionView) -> nat {
    contracts_in(s, s.functions.len() as int)
}

/// How many contracts the first `n` sections have.
pub open spec fn all_contracts(v: Seq<SectionView>, n: int) -> nat
    decreases n,
{
    if n <= 0 || n > v.len() {
        0
    } else {
        all_contracts(v, n - 1) + section_contracts(v[n - 1])
    }
}

/// How many functions the first `n` sections have.
pub open spec fn all_functions(v: Seq<SectionView>, n: int) -> nat
    decreases n,
{
    if n <= 0 || n > v.len() {
        0
    } else {
        all_functions(v, n - 1) + v[n - 1].functions.len()
    }
}

/// Conditions as far as they were looked at: how many can be read, and the first three that cannot.
#[verifier::ext_equal]
pub struct LookedAt {
    pub read: nat,
    pub examples: Seq<Seq<char>>,
}

/// What is known before anything was looked at.
pub open spec fn nothing_yet() -> LookedAt {
    LookedAt { read: 0, examples: seq![] }
}

/// What is known with one more condition, by whether it can be read.
pub open spec fn look_given(l: LookedAt, condition: Seq<char>, readable: bool) -> LookedAt {
    if readable {
        LookedAt { read: l.read + 1, ..l }
    } else if l.examples.len() < 3 {
        LookedAt { examples: l.examples.push(text::shortened(condition, 60, 57)), ..l }
    } else {
        l
    }
}

/// What is known with the first `n` contracts of a function.
pub open spec fn looked_in(l: LookedAt, f: FunctionView, n: int) -> LookedAt
    decreases n,
{
    if n <= 0 || n > f.contracts.len() {
        l
    } else {
        let c = f.contracts[n - 1].condition;
        look_given(looked_in(l, f, n - 1), c, condition::readable(c))
    }
}

/// What is known with the first `n` functions of a section.
pub open spec fn looked_at(s: SectionView, n: int) -> LookedAt
    decreases n,
{
    if n <= 0 || n > s.functions.len() {
        nothing_yet()
    } else {
        let f = s.functions[n - 1];
        looked_in(looked_at(s, n - 1), f, f.contracts.len() as int)
    }
}

/// How many functions of the code name a section.
pub open spec fn answering(gs: Seq<GroupView>, section: Seq<char>) -> nat {
    match coverage::group_place(gs, section, 0) {
        Some(p) => gs[p].functions.len(),
        None => 0,
    }
}

/// How much of a section can be read.
pub open spec fn section_row(s: SectionView, gs: Seq<GroupView>) -> SectionRow {
    let l = looked_at(s, s.functions.len() as int);
    SectionRow {
        section_id: s.id,
        spec_functions: s.functions.len(),
        contracts_total: section_contracts(s),
        contracts_parseable: l.read,
        impl_functions: answering(gs, s.id),
        unparseable_examples: l.examples,
    }
}

/// How much of each section can be read, in the order of the specification.
pub open spec fn section_rows(v: Seq<SectionView>, gs: Seq<GroupView>) -> Seq<SectionRow> {
    Seq::new(v.len(), |i: int| section_row(v[i], gs))
}

/// How many contracts of the first `n` sections can be read.
pub open spec fn all_read(v: Seq<SectionView>, n: int) -> nat
    decreases n,
{
    if n <= 0 || n > v.len() {
        0
    } else {
        all_read(v, n - 1) + looked_at(v[n - 1], v[n - 1].functions.len() as int).read
    }
}

proof fn lemma_looked_in(l: LookedAt, f: FunctionView, n: int)
    requires
        0 <= n <= f.contracts.len(),
    ensures
        looked_in(l, f, n).read <= l.read + n,
    decreases n,
{
    if n > 0 {
        lemma_looked_in(l, f, n - 1);
    }
}

/// Of the first `n` functions of a section no more contracts can be read than there are.
pub proof fn law_read_is_part_of_section(s: SectionView, n: int)
    requires
        0 <= n <= s.functions.len(),
    ensures
        looked_at(s, n).read <= contracts_in(s, n),
        looked_at(s, n).examples.len() <= 3,
    decreases n,
{
    if n > 0 {
        law_read_is_part_of_section(s, n - 1);
        let f = s.functions[n - 1];
        lemma_looked_in(looked_at(s, n - 1), f, f.contracts.len() as int);
        lemma_few_examples(looked_at(s, n - 1), f, f.contracts.len() as int);
    }
}

proof fn lemma_few_examples(l: LookedAt, f: FunctionView, n: int)
    requires
        0 <= n <= f.contracts.len(),
        l.examples.len() <= 3,
    ensures
        looked_in(l, f, n).examples.len() <= 3,
    decreases n,
{
    if n > 0 {
        lemma_few_examples(l, f, n - 1);
    }
}

/// No more contracts can be read than there are.
pub proof fn law_read_is_part_of_all(v: Seq<SectionView>, n: int)
    requires
        0 <= n <= v.len(),
    ensures
        all_read(v, n) <= all_contracts(v, n),
    decreases n,
{
    if n > 0 {
        law_read_is_part_of_all(v, n - 1);
        law_read_is_part_of_section(v[n - 1], v[n - 1].functions.len() as int);
    }
}

proof fn lemma_contracts_grow(s: SectionView, n: int)
    requires
        0 <= n <= s.functions.len(),
    ensures
        contracts_in(s, n) <= section_contracts(s),
    decreases s.functions.len() - n,
{
    if n < s.functions.len() {
        lemma_contracts_grow(s, n + 1);
    }
}

proof fn lemma_totals_grow(v: Seq<SectionView>, n: int)
    requires
        0 <= n <= v.len(),
    ensures
        all_contracts(v, n) <= all_contracts(v, v.len() as int),
        all_functions(v, n) <= all_functions(v, v.len() as int),
    decreases v.len() - n,
{
    if n < v.len() {
        lemma_totals_grow(v, n + 1);
    }
}

// ---------------------------------------------------------------------------
// Sections
// ---------------------------------------------------------------------------
/// How many contracts a section has, where that can be counted.
pub fn count_contracts(s: &SpecSection) -> (r: Option<usize>)
    ensures
        match r {
            Some(n) => n == section_contracts(s@),
            None => section_contracts(s@) > usize::MAX,
        },
{
    let ghost sv = s@;
    let mut n: usize = 0;
    let mut i: usize = 0;
    proof {
        assert(sv.functions.len() == s.functions@.len());
    }
    while i < s.functions.len()
        invariant
            i <= s.functions@.len(),
            sv == s@,
            sv.functions.len() == s.functions@.len(),
            n == contracts_in(sv, i as int),
        decreases s.functions@.len() - i,
    {
        proof {
            assert(sv.functions[i as int] == s.functions@[i as int]@);
            assert(sv.functions[i as int].contracts.len() == s.functions@[i as int].contracts@.len());
        }
        match n.checked_add(s.functions[i].contracts.len()) {
            Some(m) => {
                n = m;
            },
            None => {
                proof {
                    lemma_contracts_grow(sv, i + 1);
                }
                return None;
            },
        }
        i += 1;
    }
    Some(n)
}

#[verifier::loop_isolation(false)]
fn look_in(f: &FunctionSpec, read: usize, examples: &mut Vec<String>) -> (r: usize)
    requires
        read + f.contracts@.len() <= usize::MAX,
    ensures
        (LookedAt { read: r as nat, examples: text::views(final(examples)@) }) == looked_in(
            LookedAt { read: read as nat, examples: text::views(old(examples)@) },
            f@,
            f.contracts@.len() as int,
        ),
{
    let ghost l = LookedAt { read: read as nat, examples: text::views(examples@) };
    let mut read_now: usize = read;
    let mut i: usize = 0;
    proof {
        assert(f@.contracts.len() == f.contracts@.len());
    }
    while i < f.contracts.len()
        invariant
            i <= f.contracts@.len(),
            read_now <= read + i,
            (LookedAt { read: read_now as nat, examples: text::views(examples@) }) == looked_in(
                l,
                f@,
                i as int,
            ),
        decreases f.contracts@.len() - i,
    {
        let ghost had = examples@;
        proof {
            assert(f@.contracts[i as int] == f.contracts@[i as int]@);
            assert(text::views(had).len() == had.len());
        }
        let c = f.contracts[i].condition.as_str();
        if is_readable(c) {
            read_now += 1;
        } else if examples.len() < 3 {
            let e = shorten(c, 60, 57);
            examples.push(e);
            proof {
                assert(text::views(examples@) =~= text::views(had).push(e@));
            }
        }
        i += 1;
    }
    read_now
}

/// How much of a section with `total` contracts can be read.
#[verifier::loop_isolation(false)]
pub fn row_of_section(s: &SpecSection, total: usize, groups: &Vec<SectionFunctions>) -> (r:
    SpecSectionCoverage)
    requires
        total == section_contracts(s@),
    ensures
        r@ == section_row(s@, coverage::group_views(groups@)),
{
    let ghost sv = s@;
    let mut read: usize = 0;
    let mut examples: Vec<String> = Vec::new();
    let mut i: usize = 0;
    proof {
        assert(text::views(examples@) =~= seq![]);
        assert(sv.functions.len() == s.functions@.len());
    }
    while i < s.functions.len()
        invariant
            i <= s.functions@.len(),
            (LookedAt { read: read as nat, examples: text::views(examples@) }) == looked_at(
                sv,
                i as int,
            ),
        decreases s.functions@.len() - i,
    {
        proof {
            assert(sv.functions[i as int] == s.functions@[i as int]@);
            assert(sv.functions[i as int].contracts.len() == s.functions@[i as int].contracts@.len());
            law_read_is_part_of_section(sv, i as int);
            lemma_contracts_grow(sv, i + 1);
        }
        read = look_in(&s.functions[i], read, &mut examples);
        i += 1;
    }
    let ghost gv = coverage::group_views(groups@);
    let mut j: usize = 0;
    proof {
        assert(gv.len() == groups@.len());
    }
    while j < groups.len()
        invariant
            j <= groups@.len(),
            coverage::group_place(gv, sv.id, 0) == coverage::group_place(gv, sv.id, j as int),
        decreases groups@.len() - j,
    {
        proof {
            assert(gv[j as int] == groups@[j as int]@);
            assert(gv[j as int].functions.len() == groups@[j as int].functions@.len());
        }
        if same(groups[j].section.as_str(), s.id.as_str()) {
            return SpecSectionCoverage {
                section_id: s.id.as_str().to_owned(),
                spec_functions: s.functions.len(),
                contracts_total: total,
                contracts_parseable: read,
                impl_functions: groups[j].functions.len(),
                unparseable_examples: examples,
            };
        }
        j += 1;
    }
    SpecSectionCoverage {
        section_id: s.id.as_str().to_owned(),
        spec_functions: s.functions.len(),
        contracts_total: total,
        contracts_parseable: read,
        impl_functions: 0,
        unparseable_examples: examples,
    }
}

impl Ranked for SpecSectionCoverage {
    open spec fn precedes(self, other: Self) -> bool {
        section_order::section_before(self.section_id@, other.section_id@)
    }

    proof fn law_precedes(a: Self, b: Self, c: Self) {
        section_order::law_section_order(a.section_id@, b.section_id@, c.section_id@);
    }

    fn does_precede(&self, other: &Self) -> (r: bool) {
        is_section_before(self.section_id.as_str(), other.section_id.as_str())
    }
}

// ---------------------------------------------------------------------------
// The report
// ---------------------------------------------------------------------------
/// Where a row goes among ordered ones from `i` on: before the first of a later section.
pub open spec fn row_slot(v: Seq<SectionRow>, id: Seq<char>, i: int) -> int
    decreases v.len() - i,
{
    if i < 0 || i >= v.len() || section_order::section_before(id, v[i].section_id) {
        i
    } else {
        row_slot(v, id, i + 1)
    }
}

/// The first `n` rows in the order of their sections.
pub open spec fn rows_in_order(v: Seq<SectionRow>, n: int) -> Seq<SectionRow>
    decreases n,
{
    if n <= 0 || n > v.len() {
        seq![]
    } else {
        let done = rows_in_order(v, n - 1);
        done.insert(row_slot(done, v[n - 1].section_id, 0), v[n - 1])
    }
}

proof fn lemma_slots(v: Seq<SpecSectionCoverage>, x: SpecSectionCoverage, i: int)
    requires
        0 <= i <= v.len(),
    ensures
        sorting::slot_from(v, x, i) == row_slot(row_views(v), x.section_id@, i),
        i <= sorting::slot_from(v, x, i) <= v.len(),
    decreases v.len() - i,
{
    if i < v.len() {
        assert(row_views(v)[i] == v[i]@);
        lemma_slots(v, x, i + 1);
    }
}

proof fn lemma_rows_in_order(v: Seq<SpecSectionCoverage>, n: int)
    requires
        0 <= n <= v.len(),
    ensures
        row_views(sorting::in_order(v, n)) == rows_in_order(row_views(v), n),
    decreases n,
{
    if n > 0 {
        lemma_rows_in_order(v, n - 1);
        let done = sorting::in_order(v, n - 1);
        lemma_slots(done, v[n - 1], 0);
        let p = sorting::slot_from(done, v[n - 1], 0);
        assert(row_views(v)[n - 1] == v[n - 1]@);
        assert(row_views(done.insert(p, v[n - 1])) =~= row_views(done).insert(p, v[n - 1]@));
    } else {
        assert(row_views(sorting::in_order(v, n)) =~= seq![]);
    }
}

/// Whether a report is the one on a specification and on the coverage of the code.
pub open spec fn reports(r: SpecCoverageReport, v: Seq<SectionView>, c: CoverageStats) -> bool {
    let n = v.len() as int;
    let rows = section_rows(v, coverage::group_views(c.by_section@));
    &&& r.total_spec_functions == all_functions(v, n)
    &&& r.total_contracts == all_contracts(v, n)
    &&& r.parseable_contracts == all_read(v, n)
    &&& r.unparseable_contracts == all_contracts(v, n) - all_read(v, n)
    &&& r.impl_functions_with_contracts == c.with_contracts
    &&& r.impl_functions_without_contracts == c.without_contracts
    &&& r.formulas_defined == c.formulas_defined
    &&& r.formulas_parseable_body == c.formulas_parseable_body
    &&& r.formulas_bound_to_rust == c.formulas_bound_to_rust
    &&& r.formula_anchor_parse_gate_ok == c.formula_anchor_parse_gate_ok
    &&& r.formula_anchor_spec_missing_id == c.formula_anchor_spec_missing_id
    &&& r.formula_anchor_unparseable_body == c.formula_anchor_unparseable_body
    &&& r.constants_defined == c.constants_defined
    &&& r.constants_bound_to_rust == c.constants_bound_to_rust
    &&& r.formulas_verify_rollup == c.formulas_verify_rollup
    &&& r.constants_verify_rollup == c.constants_verify_rollup
    &&& row_views(r.by_section@) == rows_in_order(rows, rows.len() as int)
}

/// How much of a specification can be read, and with it how much of the code is tied to it. A
/// specification with more functions or contracts than can be counted is refused.
#[verifier::loop_isolation(false)]
pub fn generate_spec_coverage_report(parser: &SpecParser, stats: &CoverageStats) -> (r: Result<
    SpecCoverageReport,
    String,
>)
    ensures
        match r {
            Ok(x) => reports(x, parser.read(), *stats),
            Err(e) => {
                let n = parser.read().len() as int;
                &&& e@ == "Specification is too large to count"@
                &&& all_contracts(parser.read(), n) > usize::MAX || all_functions(parser.read(), n)
                    > usize::MAX
            },
        },
{
    let sections = parser.iter_sections();
    let ghost v = parser.read();
    let ghost gv = coverage::group_views(stats.by_section@);
    let mut rows: Vec<SpecSectionCoverage> = Vec::new();
    let mut functions: usize = 0;
    let mut total: usize = 0;
    let mut read: usize = 0;
    let mut i: usize = 0;
    proof {
        assert(v.len() == sections@.len());
    }
    while i < sections.len()
        invariant
            i <= sections@.len(),
            rows@.len() == i,
            forall|k: int| 0 <= k < i ==> (#[trigger] rows@[k])@ == section_row(v[k], gv),
            functions == all_functions(v, i as int),
            total == all_contracts(v, i as int),
            read == all_read(v, i as int),
        decreases sections@.len() - i,
    {
        proof {
            assert(v[i as int] == sections@[i as int]@);
            assert(v[i as int].functions.len() == sections@[i as int].functions@.len());
            lemma_totals_grow(v, i + 1);
            law_read_is_part_of_all(v, i + 1);
        }
        let s = &sections[i];
        let own = match count_contracts(s) {
            Some(n) => n,
            None => {
                return Err("Specification is too large to count".to_owned());
            },
        };
        let now = total.checked_add(own);
        let functions_now = functions.checked_add(s.functions.len());
        if now.is_none() || functions_now.is_none() {
            return Err("Specification is too large to count".to_owned());
        }
        total = now.unwrap();
        functions = functions_now.unwrap();
        let row = row_of_section(s, own, &stats.by_section);
        read = read + row.contracts_parseable;
        rows.push(row);
        i += 1;
    }
    proof {
        assert(row_views(rows@) =~= section_rows(v, gv));
        lemma_rows_in_order(rows@, rows@.len() as int);
        law_read_is_part_of_all(v, v.len() as int);
    }
    let by_section = sort(rows);
    Ok(
        SpecCoverageReport {
            total_spec_functions: functions,
            total_contracts: total,
            parseable_contracts: read,
            unparseable_contracts: total - read,
            impl_functions_with_contracts: stats.with_contracts,
            impl_functions_without_contracts: stats.without_contracts,
            formulas_defined: stats.formulas_defined,
            formulas_parseable_body: stats.formulas_parseable_body,
            formulas_bound_to_rust: stats.formulas_bound_to_rust,
            formula_anchor_parse_gate_ok: stats.formula_anchor_parse_gate_ok,
            formula_anchor_spec_missing_id: stats.formula_anchor_spec_missing_id,
            formula_anchor_unparseable_body: stats.formula_anchor_unparseable_body,
            constants_defined: stats.constants_defined,
            constants_bound_to_rust: stats.constants_bound_to_rust,
            formulas_verify_rollup: stats.formulas_verify_rollup,
            constants_verify_rollup: stats.constants_verify_rollup,
            by_section,
        },
    )
}

// ---------------------------------------------------------------------------
// Forms
// ---------------------------------------------------------------------------
/// The report in JSON.
pub struct JsonReport;

/// A row of the table, between its marks. `percent` is the share of contracts that can be read.
pub open spec fn cells(r: SpecSectionCoverage, percent: Seq<char>) -> Seq<char> {
    r.section_id@ + " | "@ + text::decimal(r.spec_functions as nat) + " | "@ + text::decimal(
        r.contracts_total as nat,
    ) + " | "@ + text::decimal(r.contracts_parseable as nat) + " ("@ + percent + "%) | "@
        + text::decimal(r.impl_functions as nat)
}

fn print_cells(r: &SpecSectionCoverage, percent: &str) -> (s: String)
    ensures
        s@ == cells(*r, percent@),
{
    let mut s = r.section_id.as_str().to_owned();
    s.append(" | ");
    s.append(count_text(r.spec_functions).as_str());
    s.append(" | ");
    s.append(count_text(r.contracts_total).as_str());
    s.append(" | ");
    s.append(count_text(r.contracts_parseable).as_str());
    s.append(" (");
    s.append(percent);
    s.append("%) | ");
    s.append(count_text(r.impl_functions).as_str());
    s
}

/// The first `n` conditions that cannot be read, each on a line.
pub open spec fn example_lines(v: Seq<String>, n: int) -> Seq<char>
    decreases n,
{
    if n <= 0 || n > v.len() {
        ""@
    } else {
        example_lines(v, n - 1) + report::text_line("  Unparseable: "@, v[n - 1]@)
    }
}

fn print_examples(v: &Vec<String>) -> (s: String)
    ensures
        s@ == example_lines(v@, v@.len() as int),
{
    let mut s = "".to_owned();
    let mut i: usize = 0;
    while i < v.len()
        invariant
            i <= v@.len(),
            s@ == example_lines(v@, i as int),
        decreases v@.len() - i,
    {
        s.append(line_of_text("  Unparseable: ", v[i].as_str()).as_str());
        i += 1;
    }
    s
}

/// The first `n` rows in the report for a reader. `percents` holds the share of each section.
pub open spec fn human_rows(v: Seq<SpecSectionCoverage>, percents: Seq<String>, n: int) -> Seq<char>
    decreases n,
{
    if n <= 0 || n > v.len() {
        ""@
    } else {
        human_rows(v, percents, n - 1) + cells(v[n - 1], percents[n - 1]@) + "\n"@ + example_lines(
            v[n - 1].unparseable_examples@,
            v[n - 1].unparseable_examples@.len() as int,
        )
    }
}

fn print_rows(v: &Vec<SpecSectionCoverage>, percents: &Vec<String>) -> (s: String)
    requires
        percents@.len() == v@.len(),
    ensures
        s@ == human_rows(v@, percents@, v@.len() as int),
{
    let mut s = "".to_owned();
    let mut i: usize = 0;
    while i < v.len()
        invariant
            i <= v@.len() == percents@.len(),
            s@ == human_rows(v@, percents@, i as int),
        decreases v@.len() - i,
    {
        s.append(print_cells(&v[i], percents[i].as_str()).as_str());
        s.append("\n");
        s.append(print_examples(&v[i].unparseable_examples).as_str());
        i += 1;
    }
    s
}

/// The first `n` rows in Markdown.
pub open spec fn markdown_rows(v: Seq<SpecSectionCoverage>, percents: Seq<String>, n: int) -> Seq<char>
    decreases n,
{
    if n <= 0 || n > v.len() {
        ""@
    } else {
        markdown_rows(v, percents, n - 1) + "| "@ + cells(v[n - 1], percents[n - 1]@) + " |\n"@
    }
}

fn print_markdown_rows(v: &Vec<SpecSectionCoverage>, percents: &Vec<String>) -> (s: String)
    requires
        percents@.len() == v@.len(),
    ensures
        s@ == markdown_rows(v@, percents@, v@.len() as int),
{
    let mut s = "".to_owned();
    let mut i: usize = 0;
    while i < v.len()
        invariant
            i <= v@.len() == percents@.len(),
            s@ == markdown_rows(v@, percents@, i as int),
        decreases v@.len() - i,
    {
        s.append("| ");
        s.append(print_cells(&v[i], percents[i].as_str()).as_str());
        s.append(" |\n");
        i += 1;
    }
    s
}

/// The part of the report for a reader on contracts. `percent` is the share of contracts that can be
/// read.
pub open spec fn contract_part(r: SpecCoverageReport, percent: Seq<char>) -> Seq<char> {
    "=== Spec Coverage Report (Theorems → Contracts → Parseable) ===\n\n"@ + report::count_line(
        "Spec functions: "@,
        r.total_spec_functions as nat,
    ) + report::count_line("Total contracts: "@, r.total_contracts as nat) + "  Parseable: "@
        + text::decimal(r.parseable_contracts as nat) + " ("@ + percent + "%)\n"@
        + report::count_line("  Unparseable: "@, r.unparseable_contracts as nat)
        + report::count_line(
        "\nImpl functions with contracts: "@,
        r.impl_functions_with_contracts as nat,
    ) + report::count_line(
        "Impl functions without contracts: "@,
        r.impl_functions_without_contracts as nat,
    ) + "\n"@
}

fn print_contract_part(r: &SpecCoverageReport, percent: &str) -> (s: String)
    ensures
        s@ == contract_part(*r, percent@),
{
    let mut s = "=== Spec Coverage Report (Theorems → Contracts → Parseable) ===\n\n".to_owned();
    s.append(line_of_count("Spec functions: ", r.total_spec_functions).as_str());
    s.append(line_of_count("Total contracts: ", r.total_contracts).as_str());
    s.append("  Parseable: ");
    s.append(count_text(r.parseable_contracts).as_str());
    s.append(" (");
    s.append(percent);
    s.append("%)\n");
    s.append(line_of_count("  Unparseable: ", r.unparseable_contracts).as_str());
    s.append(
        line_of_count(
            "\nImpl functions with contracts: ",
            r.impl_functions_with_contracts,
        ).as_str(),
    );
    s.append(
        line_of_count(
            "Impl functions without contracts: ",
            r.impl_functions_without_contracts,
        ).as_str(),
    );
    s.append("\n");
    s
}

/// The report for a reader.
pub open spec fn spec_coverage_text(r: SpecCoverageReport, percent: Seq<char>, percents: Seq<String>) -> Seq<char> {
    contract_part(r, percent) + "Named formulas (F_*), merged spec + Rust anchors:\n"@
        + report::count_line("  Registry size: "@, r.formulas_defined as nat)
        + coverage::share_line(
        "  Bodies parseable (verify/enrich gate): "@,
        r.formulas_parseable_body as nat,
        r.formulas_defined as nat,
        "\n"@,
    ) + report::count_line("  Rust formula_anchor count: "@, r.formulas_bound_to_rust as nat)
        + coverage::three_counts(
        "  Anchors resolve + parseable: "@,
        r.formula_anchor_parse_gate_ok as nat,
        "; missing id: "@,
        r.formula_anchor_spec_missing_id as nat,
        "; unparseable body: "@,
        r.formula_anchor_unparseable_body as nat,
        "\n"@,
    ) + "Consensus constants (`C_*`) registry + anchors:\n"@ + report::count_line(
        "  Indexed (`constants_stable_id_map`): "@,
        r.constants_defined as nat,
    ) + report::count_line("  Rust constant_anchor count: "@, r.constants_bound_to_rust as nat)
        + coverage::rollup_words(
        "  Formula witnesses (`formula_anchor`)"@,
        r.formulas_verify_rollup,
    ) + coverage::rollup_words(
        "  Constant witnesses (`constant_anchor`)"@,
        r.constants_verify_rollup,
    ) + "\nBy section:\n"@ + "Section | Spec Funcs | Contracts | Parseable | Impl\n"@
        + "--------|------------|-----------|-----------|-----\n"@ + human_rows(
        r.by_section@,
        percents,
        r.by_section@.len() as int,
    )
}

/// The report for a reader. `percent` is the share of contracts that can be read, with one digit behind
/// the point, and `percents` holds that of each section, without any.
pub fn format_spec_coverage_human(
    report: &SpecCoverageReport,
    percent: &str,
    percents: &Vec<String>,
) -> (r: String)
    requires
        percents@.len() == report.by_section@.len(),
    ensures
        r@ == spec_coverage_text(*report, percent@, percents@),
{
    let mut s = print_contract_part(report, percent);
    s.append("Named formulas (F_*), merged spec + Rust anchors:\n");
    s.append(line_of_count("  Registry size: ", report.formulas_defined).as_str());
    s.append(
        line_of_share(
            "  Bodies parseable (verify/enrich gate): ",
            report.formulas_parseable_body,
            report.formulas_defined,
            "\n",
        ).as_str(),
    );
    s.append(
        line_of_count("  Rust formula_anchor count: ", report.formulas_bound_to_rust).as_str(),
    );
    s.append(
        line_of_three(
            "  Anchors resolve + parseable: ",
            report.formula_anchor_parse_gate_ok,
            "; missing id: ",
            report.formula_anchor_spec_missing_id,
            "; unparseable body: ",
            report.formula_anchor_unparseable_body,
            "\n",
        ).as_str(),
    );
    s.append("Consensus constants (`C_*`) registry + anchors:\n");
    s.append(
        line_of_count("  Indexed (`constants_stable_id_map`): ", report.constants_defined).as_str(),
    );
    s.append(
        line_of_count("  Rust constant_anchor count: ", report.constants_bound_to_rust).as_str(),
    );
    s.append(
        witness_rollup_human_blurb(
            "  Formula witnesses (`formula_anchor`)",
            &report.formulas_verify_rollup,
        ).as_str(),
    );
    s.append(
        witness_rollup_human_blurb(
            "  Constant witnesses (`constant_anchor`)",
            &report.constants_verify_rollup,
        ).as_str(),
    );
    s.append("\nBy section:\n");
    s.append("Section | Spec Funcs | Contracts | Parseable | Impl\n");
    s.append("--------|------------|-----------|-----------|-----\n");
    s.append(print_rows(&report.by_section, percents).as_str());
    s
}

impl Recorded<JsonReport> for SpecSectionCoverage {
    open spec fn recorded(self) -> JsonForm {
        JsonForm::Object(
            map![
                "section"@ => JsonForm::Text(self.section_id@),
                "spec_functions"@ => json::number(self.spec_functions as nat),
                "contracts_total"@ => json::number(self.contracts_total as nat),
                "contracts_parseable"@ => json::number(self.contracts_parseable as nat),
                "impl_functions"@ => json::number(self.impl_functions as nat),
                "unparseable_examples"@ => json::texts(text::views(self.unparseable_examples@)),
            ],
        )
    }

    fn record(&self) -> (r: serde_json::Value) {
        let mut o = Fields::new();
        o.put_text("section", self.section_id.as_str());
        o.put_count("spec_functions", self.spec_functions);
        o.put_count("contracts_total", self.contracts_total);
        o.put_count("contracts_parseable", self.contracts_parseable);
        o.put_count("impl_functions", self.impl_functions);
        o.put("unparseable_examples", list_of_texts(&self.unparseable_examples));
        o.close()
    }
}

/// The report as a JSON value.
pub open spec fn spec_coverage_json(r: SpecCoverageReport, percent: Seq<char>) -> JsonForm {
    JsonForm::Object(
        map![
            "total_spec_functions"@ => json::number(r.total_spec_functions as nat),
            "total_contracts"@ => json::number(r.total_contracts as nat),
            "parseable_contracts"@ => json::number(r.parseable_contracts as nat),
            "unparseable_contracts"@ => json::number(r.unparseable_contracts as nat),
            "parseable_percent"@ => JsonForm::Number(percent),
            "impl_with_contracts"@ => json::number(r.impl_functions_with_contracts as nat),
            "impl_without_contracts"@ => json::number(r.impl_functions_without_contracts as nat),
            "formulas_defined"@ => json::number(r.formulas_defined as nat),
            "formulas_parseable_body"@ => json::number(r.formulas_parseable_body as nat),
            "formulas_bound_to_rust"@ => json::number(r.formulas_bound_to_rust as nat),
            "formula_anchor_parse_gate_ok"@ => json::number(r.formula_anchor_parse_gate_ok as nat),
            "formula_anchor_spec_missing_id"@ => json::number(
                r.formula_anchor_spec_missing_id as nat,
            ),
            "formula_anchor_unparseable_body"@ => json::number(
                r.formula_anchor_unparseable_body as nat,
            ),
            "constants_defined"@ => json::number(r.constants_defined as nat),
            "constants_bound_to_rust"@ => json::number(r.constants_bound_to_rust as nat),
            "formulas_verify_rollup"@ => coverage::rollup_json(r.formulas_verify_rollup),
            "constants_verify_rollup"@ => coverage::rollup_json(r.constants_verify_rollup),
            "by_section"@ => report::all_recorded::<JsonReport, SpecSectionCoverage>(r.by_section@),
        ],
    )
}

/// The report in JSON. `percent` is the share of contracts that can be read.
pub fn format_spec_coverage_json(report: &SpecCoverageReport, percent: &serde_json::Number) -> (r:
    String)
    ensures
        r@ == json::json_compact(spec_coverage_json(*report, json::number_text(*percent))),
{
    let mut o = Fields::new();
    o.put_count("total_spec_functions", report.total_spec_functions);
    o.put_count("total_contracts", report.total_contracts);
    o.put_count("parseable_contracts", report.parseable_contracts);
    o.put_count("unparseable_contracts", report.unparseable_contracts);
    o.put("parseable_percent", figure(percent));
    o.put_count("impl_with_contracts", report.impl_functions_with_contracts);
    o.put_count("impl_without_contracts", report.impl_functions_without_contracts);
    o.put_count("formulas_defined", report.formulas_defined);
    o.put_count("formulas_parseable_body", report.formulas_parseable_body);
    o.put_count("formulas_bound_to_rust", report.formulas_bound_to_rust);
    o.put_count("formula_anchor_parse_gate_ok", report.formula_anchor_parse_gate_ok);
    o.put_count("formula_anchor_spec_missing_id", report.formula_anchor_spec_missing_id);
    o.put_count("formula_anchor_unparseable_body", report.formula_anchor_unparseable_body);
    o.put_count("constants_defined", report.constants_defined);
    o.put_count("constants_bound_to_rust", report.constants_bound_to_rust);
    o.put("formulas_verify_rollup", witness_rollup_to_json(&report.formulas_verify_rollup));
    o.put("constants_verify_rollup", witness_rollup_to_json(&report.constants_verify_rollup));
    o.put("by_section", record_all::<JsonReport, SpecSectionCoverage>(&report.by_section));
    let v = o.close();
    compact(&v)
}

/// The table of numbers in Markdown.
pub open spec fn markdown_numbers(r: SpecCoverageReport, percent: Seq<char>) -> Seq<char> {
    let s = "# Spec Coverage Report\n\n"@ + "| Metric | Count |\n|--------|-------|\n"@
        + "| Spec functions | "@ + text::decimal(r.total_spec_functions as nat) + " |\n"@
        + "| Total contracts | "@ + text::decimal(r.total_contracts as nat) + " |\n"@
        + "| Parseable | "@ + text::decimal(r.parseable_contracts as nat) + " |\n"@
        + "| Unparseable | "@ + text::decimal(r.unparseable_contracts as nat) + " |\n"@
        + "| Parseable % | "@ + percent + " |\n"@ + "| **`F_*` defined (registry)** | "@
        + text::decimal(r.formulas_defined as nat) + " |\n"@;
    if r.formulas_defined == 0 {
        s + "| **`F_*` bodies parseable** | *(none)* |\n"@
    } else {
        s + coverage::share_line(
            "| **`F_*` bodies parseable** | "@,
            r.formulas_parseable_body as nat,
            r.formulas_defined as nat,
            " |\n"@,
        )
    }
}

fn print_numbers(r: &SpecCoverageReport, percent: &str) -> (s: String)
    ensures
        s@ == markdown_numbers(*r, percent@),
{
    let mut s = "# Spec Coverage Report\n\n".to_owned();
    s.append("| Metric | Count |\n|--------|-------|\n");
    s.append("| Spec functions | ");
    s.append(count_text(r.total_spec_functions).as_str());
    s.append(" |\n");
    s.append("| Total contracts | ");
    s.append(count_text(r.total_contracts).as_str());
    s.append(" |\n");
    s.append("| Parseable | ");
    s.append(count_text(r.parseable_contracts).as_str());
    s.append(" |\n");
    s.append("| Unparseable | ");
    s.append(count_text(r.unparseable_contracts).as_str());
    s.append(" |\n");
    s.append("| Parseable % | ");
    s.append(percent);
    s.append(" |\n");
    s.append("| **`F_*` defined (registry)** | ");
    s.append(count_text(r.formulas_defined).as_str());
    s.append(" |\n");
    if r.formulas_defined == 0 {
        s.append("| **`F_*` bodies parseable** | *(none)* |\n");
    } else {
        s.append(
            line_of_share(
                "| **`F_*` bodies parseable** | ",
                r.formulas_parseable_body,
                r.formulas_defined,
                " |\n",
            ).as_str(),
        );
    }
    s
}

/// The report in Markdown.
pub open spec fn spec_coverage_markdown(
    r: SpecCoverageReport,
    percent: Seq<char>,
    percents: Seq<String>,
) -> Seq<char> {
    markdown_numbers(r, percent) + "| Rust **`formula_anchor`** | "@ + text::decimal(
        r.formulas_bound_to_rust as nat,
    ) + " |\n"@ + coverage::three_counts(
        "| Anchors OK / missing id / bad body | "@,
        r.formula_anchor_parse_gate_ok as nat,
        " / "@,
        r.formula_anchor_spec_missing_id as nat,
        " / "@,
        r.formula_anchor_unparseable_body as nat,
        " |\n"@,
    ) + "| **`constants_stable_id_map` size** | "@ + text::decimal(r.constants_defined as nat)
        + " |\n"@ + "| Rust **`constant_anchor`** | "@ + text::decimal(
        r.constants_bound_to_rust as nat,
    ) + " |\n"@ + coverage::rollup_markdown(
        "`formula_anchor` verify rows"@,
        r.formulas_verify_rollup,
    ) + coverage::rollup_markdown("`constant_anchor` verify rows"@, r.constants_verify_rollup)
        + "\n## By Section\n\n| Section | Spec | Contracts | Parseable | Impl |\n|---------|------|-----------|-----------|------|\n"@
        + markdown_rows(r.by_section@, percents, r.by_section@.len() as int)
}

/// The report in Markdown. `percent` is the share of contracts that can be read, with one digit behind
/// the point, and `percents` holds that of each section, without any.
pub fn format_spec_coverage_markdown(
    report: &SpecCoverageReport,
    percent: &str,
    percents: &Vec<String>,
) -> (r: String)
    requires
        percents@.len() == report.by_section@.len(),
    ensures
        r@ == spec_coverage_markdown(*report, percent@, percents@),
{
    let mut s = print_numbers(report, percent);
    s.append("| Rust **`formula_anchor`** | ");
    s.append(count_text(report.formulas_bound_to_rust).as_str());
    s.append(" |\n");
    s.append(
        line_of_three(
            "| Anchors OK / missing id / bad body | ",
            report.formula_anchor_parse_gate_ok,
            " / ",
            report.formula_anchor_spec_missing_id,
            " / ",
            report.formula_anchor_unparseable_body,
            " |\n",
        ).as_str(),
    );
    s.append("| **`constants_stable_id_map` size** | ");
    s.append(count_text(report.constants_defined).as_str());
    s.append(" |\n");
    s.append("| Rust **`constant_anchor`** | ");
    s.append(count_text(report.constants_bound_to_rust).as_str());
    s.append(" |\n");
    s.append(
        witness_rollup_markdown(
            "`formula_anchor` verify rows",
            &report.formulas_verify_rollup,
        ).as_str(),
    );
    s.append(
        witness_rollup_markdown(
            "`constant_anchor` verify rows",
            &report.constants_verify_rollup,
        ).as_str(),
    );
    s.append(
        "\n## By Section\n\n| Section | Spec | Contracts | Parseable | Impl |\n|---------|------|-----------|-----------|------|\n",
    );
    s.append(print_markdown_rows(&report.by_section, percents).as_str());
    s
}

/// What is counted of the contracts of a function is how many can be read, and the first that
/// cannot be read is shown.
pub proof fn law_readable_contracts_are_counted(f: FunctionView, n: int)
    requires
        0 <= n <= f.contracts.len(),
    ensures
        ({
            let unread = f.contracts.take(n).filter(|c: ContractView| !condition::readable(c.condition));
            let l = looked_in(nothing_yet(), f, n);
            &&& l.read + unread.len() == n
            &&& unread.len() > 0 ==> l.examples.len() > 0 && l.examples[0] == text::shortened(
                unread[0].condition,
                60,
                57,
            )
            &&& unread.len() <= 3 ==> l.examples.len() == unread.len()
            &&& unread.len() >= 3 ==> l.examples.len() == 3
        }),
    decreases n,
{
    reveal(Seq::filter);
    if n > 0 {
        law_readable_contracts_are_counted(f, n - 1);
        assert(f.contracts.take(n).drop_last() =~= f.contracts.take(n - 1));
        assert(f.contracts.take(n).last() == f.contracts[n - 1]);
    } else {
        assert(f.contracts.take(0) =~= seq![]);
    }
}

} // verus!
