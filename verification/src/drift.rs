//! Drift: where the code and its specification have moved apart.
use vstd::prelude::*;
use crate::attributes;
use crate::attributes::{copy_function, Contract, ContractView, FunctionToVerify, LockedView};
use crate::chars;
use crate::chars::{split_whitespace, to_lowercase, trim};
use crate::condition;
use crate::condition::{extract_parseable_condition, is_readable};
use crate::contracts::ContractType;
use crate::formula_checks;
use crate::formula_checks::formula_latex_parseable_for_verify;
use crate::json;
use crate::json::{compact, list_of_texts, Fields, JsonForm};
use crate::orange_paper;
use crate::orange_paper::{section_id_subsumes_formula_section, SpecParser};
use crate::report;
use crate::report::{line_of_count, line_of_text, print_all, print_ten, record_all, Printed, Recorded};
use crate::spec_types::{FormulaSpec, FormulaView, FunctionSpec, FunctionView, SectionView, SpecSection};
use crate::text;
use crate::text::{contains, from_range, join, replace, same, shorten, to_chars};

verus! {

/// Where the code and its specification have moved apart.
#[derive(Debug)]
pub struct DriftResult {
    /// Contracts in the code that the specification does not have.
    pub mismatched_contracts: Vec<MismatchedContract>,
    /// Functions that the specification gives no contract for.
    pub missing_from_spec: Vec<FunctionToVerify>,
    /// Theorems of the specification that no code answers.
    pub missing_implementations: Vec<String>,
    /// Functions that name no section.
    pub auto_inferred: Vec<FunctionToVerify>,
    /// Conditions of the specification that cannot be read.
    pub unparseable_spec_contracts: Vec<UnparseableContract>,
    /// Formulas of the specification that cannot be read.
    pub unparseable_formulas: Vec<UnparseableFormula>,
    /// How many conditions were left out, outside the sections that the code names.
    pub unparseable_omitted_outside_scope: usize,
    /// How many formulas were left out, outside the sections that the code names.
    pub unparseable_formulas_omitted_outside_scope: usize,
    /// Claims that a function always gives the same answer.
    pub suspect_universal_claims: Vec<SuspectUniversalClaim>,
}

/// A property that says, without a condition, that a function gives true, or that it gives false.
#[derive(Debug)]
pub struct SuspectUniversalClaim {
    pub section: String,
    pub function: String,
    pub condition: String,
}

/// A condition of the specification that cannot be read.
#[derive(Debug)]
pub struct UnparseableContract {
    pub section: String,
    pub function: String,
    pub condition: String,
}

/// A formula that cannot be read.
#[derive(Debug)]
pub struct UnparseableFormula {
    pub id: String,
    pub section: String,
    pub body_preview: String,
}

/// A contract in the code that the specification does not have.
#[derive(Debug)]
pub struct MismatchedContract {
    pub function: FunctionToVerify,
    pub orange_paper_contract: String,
    pub implementation_contract: String,
    pub section: String,
}

/// A condition or a claim in its place, as a mathematical value.
#[verifier::ext_equal]
pub struct PlacedView {
    pub section: Seq<char>,
    pub function: Seq<char>,
    pub condition: Seq<char>,
}

/// `UnparseableFormula` as a mathematical value.
#[verifier::ext_equal]
pub struct UnreadView {
    pub id: Seq<char>,
    pub section: Seq<char>,
    pub body_preview: Seq<char>,
}

/// `MismatchedContract` as a mathematical value.
#[verifier::ext_equal]
pub struct MismatchView {
    pub function: LockedView,
    pub orange_paper_contract: Seq<char>,
    pub implementation_contract: Seq<char>,
    pub section: Seq<char>,
}

/// `DriftResult` as a mathematical value.
#[verifier::ext_equal]
pub struct DriftView {
    pub mismatched_contracts: Seq<MismatchView>,
    pub missing_from_spec: Seq<LockedView>,
    pub missing_implementations: Seq<Seq<char>>,
    pub auto_inferred: Seq<LockedView>,
    pub unparseable_spec_contracts: Seq<PlacedView>,
    pub unparseable_formulas: Seq<UnreadView>,
    pub unparseable_omitted_outside_scope: nat,
    pub unparseable_formulas_omitted_outside_scope: nat,
    pub suspect_universal_claims: Seq<PlacedView>,
}

impl View for SuspectUniversalClaim {
    type V = PlacedView;

    open spec fn view(&self) -> PlacedView {
        PlacedView {
            section: self.section@,
            function: self.function@,
            condition: self.condition@,
        }
    }
}

impl View for UnparseableContract {
    type V = PlacedView;

    open spec fn view(&self) -> PlacedView {
        PlacedView {
            section: self.section@,
            function: self.function@,
            condition: self.condition@,
        }
    }
}

impl View for UnparseableFormula {
    type V = UnreadView;

    open spec fn view(&self) -> UnreadView {
        UnreadView { id: self.id@, section: self.section@, body_preview: self.body_preview@ }
    }
}

impl View for MismatchedContract {
    type V = MismatchView;

    open spec fn view(&self) -> MismatchView {
        MismatchView {
            function: self.function@,
            orange_paper_contract: self.orange_paper_contract@,
            implementation_contract: self.implementation_contract@,
            section: self.section@,
        }
    }
}

/// Claims as mathematical values.
pub open spec fn claim_views(v: Seq<SuspectUniversalClaim>) -> Seq<PlacedView> {
    v.map_values(|c: SuspectUniversalClaim| c@)
}

/// Conditions as mathematical values.
pub open spec fn unread_views(v: Seq<UnparseableContract>) -> Seq<PlacedView> {
    v.map_values(|c: UnparseableContract| c@)
}

/// Formulas as mathematical values.
pub open spec fn formula_views(v: Seq<UnparseableFormula>) -> Seq<UnreadView> {
    v.map_values(|c: UnparseableFormula| c@)
}

/// Mismatches as mathematical values.
pub open spec fn mismatch_views(v: Seq<MismatchedContract>) -> Seq<MismatchView> {
    v.map_values(|c: MismatchedContract| c@)
}

impl View for DriftResult {
    type V = DriftView;

    open spec fn view(&self) -> DriftView {
        DriftView {
            mismatched_contracts: mismatch_views(self.mismatched_contracts@),
            missing_from_spec: attributes::locked_views(self.missing_from_spec@),
            missing_implementations: text::views(self.missing_implementations@),
            auto_inferred: attributes::locked_views(self.auto_inferred@),
            unparseable_spec_contracts: unread_views(self.unparseable_spec_contracts@),
            unparseable_formulas: formula_views(self.unparseable_formulas@),
            unparseable_omitted_outside_scope: self.unparseable_omitted_outside_scope as nat,
            unparseable_formulas_omitted_outside_scope:
                self.unparseable_formulas_omitted_outside_scope as nat,
            suspect_universal_claims: claim_views(self.suspect_universal_claims@),
        }
    }
}

// ---------------------------------------------------------------------------
// Whether two contracts say the same
// ---------------------------------------------------------------------------
/// A contract in small letters and without spaces.
pub open spec fn normal(contract: Seq<char>) -> Seq<char> {
    text::replaced(chars::unicode_lower(contract), " "@, ""@)
}

/// A contract of ASCII characters in small letters and without spaces.
pub open spec fn ascii_normal(contract: Seq<char>) -> Seq<char> {
    text::replaced(contract.map_values(|c: char| chars::ascii_lower(c)), " "@, ""@)
}

/// A contract in small letters and without spaces.
pub fn normalize_contract(contract: &str) -> (r: String)
    ensures
        r@ == normal(contract@),
        chars::ascii_only(contract@) ==> r@ == ascii_normal(contract@),
{
    let low = to_lowercase(contract);
    replace(low.as_str(), " ", "")
}

/// Whether two contracts in normal form say the same: the specification only asks for `true`, or one
/// holds the other.
pub open spec fn similar_given(spec: Seq<char>, code: Seq<char>) -> bool {
    spec == "true"@ || spec == code || text::holds(spec, code) || text::holds(code, spec)
}

/// Whether a contract of the specification and one of the code say the same.
pub open spec fn similar(spec: Seq<char>, code: Seq<char>) -> bool {
    similar_given(normal(spec), normal(code))
}

/// Whether two contracts in normal form say the same.
pub fn normal_forms_similar(spec: &str, code: &str) -> (r: bool)
    ensures
        r == similar_given(spec@, code@),
{
    same(spec, "true") || same(spec, code) || contains(spec, code) || contains(code, spec)
}

/// Whether a contract of the specification and one of the code say the same.
pub fn contracts_similar(spec: &str, impl_contract: &str) -> (r: bool)
    ensures
        r == similar(spec@, impl_contract@),
        chars::ascii_only(spec@) && chars::ascii_only(impl_contract@) ==> r == similar_given(
            ascii_normal(spec@),
            ascii_normal(impl_contract@),
        ),
        spec@ == "true"@ ==> r,
{
    let a = normalize_contract(spec);
    let b = normalize_contract(impl_contract);
    proof {
        lemma_true_is_normal();
    }
    normal_forms_similar(a.as_str(), b.as_str())
}

// ---------------------------------------------------------------------------
// Claims without a condition
// ---------------------------------------------------------------------------
/// Whether an expression with single spaces says only that the answer is true, or false.
pub open spec fn plain_answer(e: Seq<char>) -> bool {
    e == "result == true"@ || e == "result==true"@ || e == "result == false"@ || e
        == "result==false"@
}

/// Whether a statement in small letters has a condition, or joins or denies something.
pub open spec fn guarded(low: Seq<char>) -> bool {
    text::holds(low, "\\implies"@) || text::holds(low, "\\rightarrow"@) || text::holds(
        low,
        "\\iff"@,
    ) || text::holds(low, "\\land"@) || text::holds(low, "=>"@) || text::holds(low, "\\neg"@)
}

/// Whether a statement is a bare claim, by its form in small letters and the expression that it
/// becomes.
pub open spec fn bare_given(low: Seq<char>, parsed: Seq<char>) -> bool {
    plain_answer(text::joined(chars::words(parsed), " "@)) && !guarded(low)
}

/// Whether a statement is a bare claim, by the form in small letters and the expression.
pub fn is_bare_claim(low: &str, parsed: &str) -> (r: bool)
    ensures
        r == bare_given(low@, parsed@),
{
    let words = split_whitespace(parsed);
    let e = join(words.as_slice(), " ");
    let plain = same(e.as_str(), "result == true") || same(e.as_str(), "result==true") || same(
        e.as_str(),
        "result == false",
    ) || same(e.as_str(), "result==false");
    if !plain {
        return false;
    }
    !(contains(low, "\\implies") || contains(low, "\\rightarrow") || contains(low, "\\iff")
        || contains(low, "\\land") || contains(low, "=>") || contains(low, "\\neg"))
}

/// Whether a statement claims that the answer is always true, or always false: it becomes just that
/// expression, and it names no condition.
pub fn is_suspect_universal(raw: &str, parsed: &str) -> (r: bool)
    ensures
        r == bare_given(chars::unicode_lower(raw@), parsed@),
{
    let low = to_lowercase(raw);
    is_bare_claim(low.as_str(), parsed)
}

/// Whether a statement speaks of a result that is true or false.
pub open spec fn on_truth(statement: Seq<char>) -> bool {
    text::holds(statement, "result"@) && (text::holds(statement, "true"@) || text::holds(
        statement,
        "false"@,
    ))
}

/// Whether a statement of the specification is suspect.
pub open spec fn suspect(statement: Seq<char>) -> bool {
    on_truth(statement) && (condition::extraction(statement) matches Some(e) && bare_given(
        chars::unicode_lower(statement),
        e,
    ))
}

/// Whether a statement of the specification is suspect.
pub fn is_suspect(statement: &str) -> (r: bool)
    ensures
        r == suspect(statement@),
{
    if !(contains(statement, "result") && (contains(statement, "true") || contains(
        statement,
        "false",
    ))) {
        return false;
    }
    match extract_parseable_condition(statement) {
        Some(e) => is_suspect_universal(statement, e.as_str()),
        None => false,
    }
}

// ---------------------------------------------------------------------------
// Short forms
// ---------------------------------------------------------------------------
/// A text with single spaces, or its first `max - 3` characters and three dots where it has more than
/// `max`.
pub open spec fn preview(s: Seq<char>, max: nat) -> Seq<char> {
    let t = text::joined(chars::words(s), " "@);
    if t.len() <= max {
        t
    } else {
        t.take(
            if max >= 3 {
                max - 3
            } else {
                0
            },
        ) + "..."@
    }
}

/// A text with single spaces, cut where it is too long.
pub fn trim_preview(s: &str, max_chars: usize) -> (r: String)
    ensures
        r@ == preview(s@, max_chars as nat),
{
    let words = split_whitespace(s);
    let t = join(words.as_slice(), " ");
    let v = to_chars(t.as_str());
    if v.len() <= max_chars {
        return t;
    }
    let n: usize = if max_chars >= 3 {
        max_chars - 3
    } else {
        0
    };
    let mut out = from_range(v.as_slice(), 0, n);
    proof {
        assert(t@.subrange(0, n as int) =~= t@.take(n as int));
    }
    out.append("...");
    out
}

// ---------------------------------------------------------------------------
// Contracts of the code against those of the specification
// ---------------------------------------------------------------------------
/// Whether a contract of the specification among `cs` says the same as `m`.
pub open spec fn answered(cs: Seq<ContractView>, m: ContractView) -> bool {
    exists|i: int|
        0 <= i < cs.len() && (#[trigger] cs[i]).is_spec_derived && cs[i].contract_type
            == m.contract_type && similar(cs[i].condition, m.condition)
}

/// The first contract of a kind from `i` on that comes from the specification.
pub open spec fn first_derived(cs: Seq<ContractView>, k: ContractType, i: int) -> Option<
    ContractView,
>
    decreases cs.len() - i,
{
    if i < 0 || i >= cs.len() {
        None
    } else if cs[i].is_spec_derived && cs[i].contract_type == k {
        Some(cs[i])
    } else {
        first_derived(cs, k, i + 1)
    }
}

/// The mismatches among the first `n` contracts of a function: those of the code that no contract of
/// the specification answers, though it has one of that kind.
pub open spec fn mismatches_in(f: LockedView, n: int) -> Seq<MismatchView>
    decreases n,
{
    if n <= 0 || n > f.contracts.len() {
        seq![]
    } else {
        let done = mismatches_in(f, n - 1);
        let m = f.contracts[n - 1];
        match first_derived(f.contracts, m.contract_type, 0) {
            Some(s) if !m.is_spec_derived && !answered(f.contracts, m) => done.push(
                MismatchView {
                    function: f,
                    orange_paper_contract: s.condition,
                    implementation_contract: m.condition,
                    section: match f.section {
                        Some(x) => x,
                        None => ""@,
                    },
                },
            ),
            _ => done,
        }
    }
}

/// The mismatches of the first `n` functions. A function without a section has none.
pub open spec fn mismatches(fs: Seq<LockedView>, n: int) -> Seq<MismatchView>
    decreases n,
{
    if n <= 0 || n > fs.len() {
        seq![]
    } else {
        let f = fs[n - 1];
        let done = mismatches(fs, n - 1);
        if f.section is None {
            done
        } else {
            done + mismatches_in(f, f.contracts.len() as int)
        }
    }
}

/// The functions among the first `n` that name no section.
pub open spec fn unplaced(fs: Seq<LockedView>, n: int) -> Seq<LockedView>
    decreases n,
{
    if n <= 0 || n > fs.len() {
        seq![]
    } else if fs[n - 1].section is None {
        unplaced(fs, n - 1).push(fs[n - 1])
    } else {
        unplaced(fs, n - 1)
    }
}

/// The functions among the first `n` that name a section and have no contract.
pub open spec fn without_contract(fs: Seq<LockedView>, n: int) -> Seq<LockedView>
    decreases n,
{
    if n <= 0 || n > fs.len() {
        seq![]
    } else if fs[n - 1].section is Some && fs[n - 1].contracts.len() == 0 {
        without_contract(fs, n - 1).push(fs[n - 1])
    } else {
        without_contract(fs, n - 1)
    }
}

fn is_answered(cs: &Vec<Contract>, m: &Contract) -> (r: bool)
    ensures
        r == answered(attributes::contract_views(cs@), m@),
{
    let ghost cv = attributes::contract_views(cs@);
    let mut i: usize = 0;
    while i < cs.len()
        invariant
            i <= cs@.len(),
            cv == attributes::contract_views(cs@),
            forall|k: int|
                0 <= k < i ==> !((#[trigger] cv[k]).is_spec_derived && cv[k].contract_type
                    == m@.contract_type && similar(cv[k].condition, m@.condition)),
        decreases cs@.len() - i,
    {
        proof {
            assert(cv[i as int] == cs@[i as int]@);
        }
        let s = &cs[i];
        if s.is_spec_derived && s.contract_type == m.contract_type && contracts_similar(
            s.condition.as_str(),
            m.condition.as_str(),
        ) {
            return true;
        }
        i += 1;
    }
    proof {
        assert(cv.len() == cs@.len());
    }
    false
}

fn find_derived(cs: &Vec<Contract>, k: ContractType) -> (r: Option<&Contract>)
    ensures
        match r {
            Some(c) => first_derived(attributes::contract_views(cs@), k, 0) == Some(c@),
            None => first_derived(attributes::contract_views(cs@), k, 0) is None,
        },
{
    let ghost cv = attributes::contract_views(cs@);
    let mut i: usize = 0;
    while i < cs.len()
        invariant
            i <= cs@.len(),
            cv == attributes::contract_views(cs@),
            first_derived(cv, k, 0) == first_derived(cv, k, i as int),
        decreases cs@.len() - i,
    {
        proof {
            assert(cv[i as int] == cs@[i as int]@);
            assert(cv.len() == cs@.len());
        }
        if cs[i].is_spec_derived && cs[i].contract_type == k {
            return Some(&cs[i]);
        }
        i += 1;
    }
    proof {
        assert(cv.len() == cs@.len());
    }
    None
}

/// The contracts of a function that the specification does not have.
#[verifier::loop_isolation(false)]
pub fn mismatched_contracts(f: &FunctionToVerify) -> (r: Vec<MismatchedContract>)
    ensures
        mismatch_views(r@) == mismatches_in(f@, f.contracts@.len() as int),
{
    let mut out: Vec<MismatchedContract> = Vec::new();
    let mut i: usize = 0;
    proof {
        assert(mismatch_views(out@) =~= seq![]);
    }
    while i < f.contracts.len()
        invariant
            i <= f.contracts@.len(),
            mismatch_views(out@) == mismatches_in(f@, i as int),
        decreases f.contracts@.len() - i,
    {
        let ghost had = out@;
        let m = &f.contracts[i];
        proof {
            assert(f@.contracts[i as int] == m@);
            assert(f@.contracts.len() == f.contracts@.len());
        }
        if !m.is_spec_derived && !is_answered(&f.contracts, m) {
            if let Some(s) = find_derived(&f.contracts, m.contract_type) {
                let row = MismatchedContract {
                    function: copy_function(f),
                    orange_paper_contract: s.condition.as_str().to_owned(),
                    implementation_contract: m.condition.as_str().to_owned(),
                    section: match &f.section {
                        Some(x) => x.as_str().to_owned(),
                        None => "".to_owned(),
                    },
                };
                out.push(row);
                proof {
                    assert(mismatch_views(out@) =~= mismatch_views(had).push(row@));
                }
            }
        }
        i += 1;
    }
    out
}

// ---------------------------------------------------------------------------
// What the specification holds
// ---------------------------------------------------------------------------
/// A condition that cannot be read, in its place and cut where it is long.
pub open spec fn unread_row(section: Seq<char>, function: Seq<char>, raw: Seq<char>) -> PlacedView {
    PlacedView { section, function, condition: text::shortened(raw, 80, 77) }
}

/// A condition that cannot be read, in its place and cut where it is long.
pub fn row_of_unread(section: &str, function: &str, raw: &str) -> (r: UnparseableContract)
    ensures
        r@ == unread_row(section@, function@, raw@),
{
    UnparseableContract {
        section: section.to_owned(),
        function: function.to_owned(),
        condition: shorten(raw, 80, 77),
    }
}

/// The conditions among the first `n` of a function that cannot be read.
pub open spec fn unread_in(section: Seq<char>, f: FunctionView, n: int) -> Seq<PlacedView>
    decreases n,
{
    if n <= 0 || n > f.contracts.len() {
        seq![]
    } else {
        let done = unread_in(section, f, n - 1);
        let c = f.contracts[n - 1].condition;
        if !condition::readable(c) {
            done.push(unread_row(section, f.name, c))
        } else {
            done
        }
    }
}

/// The suspect claims among the first `n` properties of a function.
pub open spec fn claims_in(section: Seq<char>, f: FunctionView, n: int) -> Seq<PlacedView>
    decreases n,
{
    if n <= 0 || n > f.properties.len() {
        seq![]
    } else {
        let done = claims_in(section, f, n - 1);
        let s = f.properties[n - 1].statement;
        if suspect(s) {
            done.push(PlacedView { section, function: f.name, condition: chars::trimmed(s) })
        } else {
            done
        }
    }
}

/// The conditions of the first `n` functions of a section that cannot be read.
pub open spec fn unread_at(s: SectionView, n: int) -> Seq<PlacedView>
    decreases n,
{
    if n <= 0 || n > s.functions.len() {
        seq![]
    } else {
        let f = s.functions[n - 1];
        unread_at(s, n - 1) + unread_in(s.id, f, f.contracts.len() as int)
    }
}

/// The suspect claims on the first `n` functions of a section.
pub open spec fn claims_at(s: SectionView, n: int) -> Seq<PlacedView>
    decreases n,
{
    if n <= 0 || n > s.functions.len() {
        seq![]
    } else {
        let f = s.functions[n - 1];
        claims_at(s, n - 1) + claims_in(s.id, f, f.properties.len() as int)
    }
}

/// The conditions of the first `n` sections that cannot be read.
pub open spec fn unread(v: Seq<SectionView>, n: int) -> Seq<PlacedView>
    decreases n,
{
    if n <= 0 || n > v.len() {
        seq![]
    } else {
        unread(v, n - 1) + unread_at(v[n - 1], v[n - 1].functions.len() as int)
    }
}

/// The suspect claims of the first `n` sections.
pub open spec fn claims(v: Seq<SectionView>, n: int) -> Seq<PlacedView>
    decreases n,
{
    if n <= 0 || n > v.len() {
        seq![]
    } else {
        claims(v, n - 1) + claims_at(v[n - 1], v[n - 1].functions.len() as int)
    }
}

/// The formulas among the first `n` that cannot be read.
pub open spec fn unread_formulas(fs: Seq<FormulaView>, n: int) -> Seq<UnreadView>
    decreases n,
{
    if n <= 0 || n > fs.len() {
        seq![]
    } else {
        let done = unread_formulas(fs, n - 1);
        let f = fs[n - 1];
        if formula_checks::passes(f.latex_body) {
            done
        } else {
            done.push(
                UnreadView {
                    id: f.id,
                    section: f.section,
                    body_preview: preview(f.latex_body, 120),
                },
            )
        }
    }
}

/// The conditions of a function that cannot be read.
#[verifier::loop_isolation(false)]
pub fn unread_conditions(section: &str, f: &FunctionSpec) -> (r: Vec<UnparseableContract>)
    ensures
        unread_views(r@) == unread_in(section@, f@, f.contracts@.len() as int),
{
    let mut out: Vec<UnparseableContract> = Vec::new();
    let mut i: usize = 0;
    proof {
        assert(unread_views(out@) =~= seq![]);
    }
    while i < f.contracts.len()
        invariant
            i <= f.contracts@.len(),
            unread_views(out@) == unread_in(section@, f@, i as int),
        decreases f.contracts@.len() - i,
    {
        let ghost had = out@;
        proof {
            assert(f@.contracts[i as int] == f.contracts@[i as int]@);
            assert(f@.contracts.len() == f.contracts@.len());
        }
        let raw = f.contracts[i].condition.as_str();
        if !is_readable(raw) {
            let row = row_of_unread(section, f.name.as_str(), raw);
            out.push(row);
            proof {
                assert(unread_views(out@) =~= unread_views(had).push(row@));
            }
        }
        i += 1;
    }
    out
}

/// The suspect claims on a function.
#[verifier::loop_isolation(false)]
pub fn suspect_claims(section: &str, f: &FunctionSpec) -> (r: Vec<SuspectUniversalClaim>)
    ensures
        claim_views(r@) == claims_in(section@, f@, f.properties@.len() as int),
{
    let mut out: Vec<SuspectUniversalClaim> = Vec::new();
    let mut i: usize = 0;
    proof {
        assert(claim_views(out@) =~= seq![]);
    }
    while i < f.properties.len()
        invariant
            i <= f.properties@.len(),
            claim_views(out@) == claims_in(section@, f@, i as int),
        decreases f.properties@.len() - i,
    {
        let ghost had = out@;
        proof {
            assert(f@.properties[i as int] == f.properties@[i as int]@);
            assert(f@.properties.len() == f.properties@.len());
        }
        let s = f.properties[i].statement.as_str();
        if is_suspect(s) {
            let row = SuspectUniversalClaim {
                section: section.to_owned(),
                function: f.name.as_str().to_owned(),
                condition: trim(s),
            };
            out.push(row);
            proof {
                assert(claim_views(out@) =~= claim_views(had).push(row@));
            }
        }
        i += 1;
    }
    out
}

#[verifier::loop_isolation(false)]
fn scan_section(
    s: &SpecSection,
    unread_out: &mut Vec<UnparseableContract>,
    claims_out: &mut Vec<SuspectUniversalClaim>,
)
    ensures
        unread_views(final(unread_out)@) == unread_views(old(unread_out)@) + unread_at(
            s@,
            s.functions@.len() as int,
        ),
        claim_views(final(claims_out)@) == claim_views(old(claims_out)@) + claims_at(
            s@,
            s.functions@.len() as int,
        ),
{
    let ghost u0 = unread_views(unread_out@);
    let ghost c0 = claim_views(claims_out@);
    let mut i: usize = 0;
    proof {
        assert(u0 + Seq::<PlacedView>::empty() =~= u0);
        assert(c0 + Seq::<PlacedView>::empty() =~= c0);
    }
    while i < s.functions.len()
        invariant
            i <= s.functions@.len(),
            unread_views(unread_out@) == u0 + unread_at(s@, i as int),
            claim_views(claims_out@) == c0 + claims_at(s@, i as int),
        decreases s.functions@.len() - i,
    {
        let ghost u1 = unread_out@;
        let ghost c1 = claims_out@;
        proof {
            assert(s@.functions[i as int] == s.functions@[i as int]@);
            assert(s@.functions.len() == s.functions@.len());
        }
        let f = &s.functions[i];
        let mut a = unread_conditions(s.id.as_str(), f);
        let mut b = suspect_claims(s.id.as_str(), f);
        let ghost av = a@;
        let ghost bv = b@;
        unread_out.append(&mut a);
        claims_out.append(&mut b);
        proof {
            assert(f@.contracts.len() == f.contracts@.len());
            assert(f@.properties.len() == f.properties@.len());
            assert(unread_views(unread_out@) =~= unread_views(u1) + unread_views(av));
            assert(claim_views(claims_out@) =~= claim_views(c1) + claim_views(bv));
            assert(u0 + unread_at(s@, i as int) + unread_views(av) =~= u0 + (unread_at(
                s@,
                i as int,
            ) + unread_views(av)));
            assert(c0 + claims_at(s@, i as int) + claim_views(bv) =~= c0 + (claims_at(s@, i as int)
                + claim_views(bv)));
        }
        i += 1;
    }
}

/// The conditions of a specification that cannot be read, and its suspect claims.
#[verifier::loop_isolation(false)]
pub fn scan_sections(parser: &SpecParser) -> (r: (
    Vec<UnparseableContract>,
    Vec<SuspectUniversalClaim>,
))
    ensures
        unread_views(r.0@) == unread(parser.read(), parser.read().len() as int),
        claim_views(r.1@) == claims(parser.read(), parser.read().len() as int),
{
    let sections = parser.iter_sections();
    let ghost v = parser.read();
    let mut a: Vec<UnparseableContract> = Vec::new();
    let mut b: Vec<SuspectUniversalClaim> = Vec::new();
    let mut i: usize = 0;
    proof {
        assert(unread_views(a@) =~= seq![]);
        assert(claim_views(b@) =~= seq![]);
        assert(v.len() == sections@.len());
    }
    while i < sections.len()
        invariant
            i <= sections@.len(),
            unread_views(a@) == unread(v, i as int),
            claim_views(b@) == claims(v, i as int),
        decreases sections@.len() - i,
    {
        proof {
            assert(v[i as int] == sections@[i as int]@);
            assert(v[i as int].functions.len() == sections@[i as int].functions@.len());
        }
        scan_section(&sections[i], &mut a, &mut b);
        i += 1;
    }
    (a, b)
}

/// The formulas that cannot be read.
#[verifier::loop_isolation(false)]
pub fn formulas_unread(fs: &Vec<&FormulaSpec>) -> (r: Vec<UnparseableFormula>)
    ensures
        formula_views(r@) == unread_formulas(orange_paper::formula_refs(fs@), fs@.len() as int),
{
    let ghost fv = orange_paper::formula_refs(fs@);
    let mut out: Vec<UnparseableFormula> = Vec::new();
    let mut i: usize = 0;
    proof {
        assert(formula_views(out@) =~= seq![]);
        assert(fv.len() == fs@.len());
    }
    while i < fs.len()
        invariant
            i <= fs@.len(),
            formula_views(out@) == unread_formulas(fv, i as int),
        decreases fs@.len() - i,
    {
        let ghost had = out@;
        proof {
            assert(fv[i as int] == fs@[i as int]@);
        }
        let f = fs[i];
        if !formula_latex_parseable_for_verify(f.latex_body.as_str()) {
            let row = UnparseableFormula {
                id: f.id.as_str().to_owned(),
                section: f.section.as_str().to_owned(),
                body_preview: trim_preview(f.latex_body.as_str(), 120),
            };
            out.push(row);
            proof {
                assert(formula_views(out@) =~= formula_views(had).push(row@));
            }
        }
        i += 1;
    }
    out
}

// ---------------------------------------------------------------------------
// The sections that the code names
// ---------------------------------------------------------------------------
/// Whether a section of the specification is the one that the code names, or lies within it. `5.10`
/// does not lie within `5.1`.
pub fn spec_section_matches_lock(spec_section: &str, lock: &str) -> (r: bool)
    ensures
        r == orange_paper::number_extends(spec_section@, lock@),
{
    section_id_subsumes_formula_section(lock, spec_section)
}

/// Whether a section lies within one that a function names.
pub open spec fn in_scope(section: Seq<char>, fs: Seq<LockedView>) -> bool {
    exists|i: int|
        0 <= i < fs.len() && ((#[trigger] fs[i]).section matches Some(l)
            && orange_paper::number_extends(section, l))
}

/// Whether a section lies within one that a function names.
pub fn unparseable_in_scope(spec_section: &str, functions: &Vec<FunctionToVerify>) -> (r: bool)
    ensures
        r == in_scope(spec_section@, attributes::locked_views(functions@)),
{
    let ghost fv = attributes::locked_views(functions@);
    let mut i: usize = 0;
    while i < functions.len()
        invariant
            i <= functions@.len(),
            fv == attributes::locked_views(functions@),
            forall|k: int|
                0 <= k < i ==> !((#[trigger] fv[k]).section matches Some(l)
                    && orange_paper::number_extends(spec_section@, l)),
        decreases functions@.len() - i,
    {
        proof {
            assert(fv[i as int] == functions@[i as int]@);
        }
        if let Some(l) = &functions[i].section {
            if spec_section_matches_lock(spec_section, l.as_str()) {
                return true;
            }
        }
        i += 1;
    }
    proof {
        assert(fv.len() == functions@.len());
    }
    false
}

/// The conditions among the first `n` that lie within sections that the code names.
pub open spec fn kept_conditions(v: Seq<PlacedView>, n: int, fs: Seq<LockedView>) -> Seq<PlacedView>
    decreases n,
{
    if n <= 0 || n > v.len() {
        seq![]
    } else if in_scope(v[n - 1].section, fs) {
        kept_conditions(v, n - 1, fs).push(v[n - 1])
    } else {
        kept_conditions(v, n - 1, fs)
    }
}

/// The formulas among the first `n` that lie within sections that the code names.
pub open spec fn kept_formulas(v: Seq<UnreadView>, n: int, fs: Seq<LockedView>) -> Seq<UnreadView>
    decreases n,
{
    if n <= 0 || n > v.len() {
        seq![]
    } else if in_scope(v[n - 1].section, fs) {
        kept_formulas(v, n - 1, fs).push(v[n - 1])
    } else {
        kept_formulas(v, n - 1, fs)
    }
}

/// The conditions that are reported: all, or with `scoped` those within sections that the code names.
pub open spec fn reported_conditions(
    v: Seq<PlacedView>,
    fs: Seq<LockedView>,
    scoped: bool,
) -> Seq<PlacedView> {
    if scoped {
        kept_conditions(v, v.len() as int, fs)
    } else {
        v
    }
}

/// The formulas that are reported.
pub open spec fn reported_formulas(
    v: Seq<UnreadView>,
    fs: Seq<LockedView>,
    scoped: bool,
) -> Seq<UnreadView> {
    if scoped {
        kept_formulas(v, v.len() as int, fs)
    } else {
        v
    }
}

/// The conditions that are reported, and how many are left out.
#[verifier::loop_isolation(false)]
pub fn keep_conditions(
    all: Vec<UnparseableContract>,
    functions: &Vec<FunctionToVerify>,
    scoped: bool,
) -> (r: (Vec<UnparseableContract>, usize))
    ensures
        ({
            let kept = reported_conditions(
                unread_views(all@),
                attributes::locked_views(functions@),
                scoped,
            );
            unread_views(r.0@) == kept && r.1 == all@.len() - kept.len()
        }),
{
    if !scoped {
        return (all, 0);
    }
    let ghost v = all@;
    let ghost vv = unread_views(all@);
    let ghost fv = attributes::locked_views(functions@);
    let total: usize = all.len();
    let mut rest = all;
    let mut out: Vec<UnparseableContract> = Vec::new();
    let mut omitted: usize = 0;
    let ghost mut i: int = 0;
    proof {
        assert(v.skip(0) =~= v);
        assert(unread_views(out@) =~= seq![]);
    }
    while rest.len() > 0
        invariant
            0 <= i <= v.len() == total,
            rest@ == v.skip(i),
            unread_views(out@) == kept_conditions(vv, i, fv),
            omitted + out@.len() == i,
        decreases rest@.len(),
    {
        let ghost had = out@;
        let u = rest.remove(0);
        proof {
            assert(u == v[i]);
            assert(vv[i] == u@);
            assert(rest@ =~= v.skip(i + 1));
        }
        if unparseable_in_scope(u.section.as_str(), functions) {
            out.push(u);
            proof {
                assert(unread_views(out@) =~= unread_views(had).push(u@));
            }
        } else {
            omitted += 1;
        }
        proof {
            i = i + 1;
        }
    }
    proof {
        assert(vv.len() == v.len());
        assert(unread_views(out@).len() == out@.len());
    }
    (out, omitted)
}

/// The formulas that are reported, and how many are left out.
#[verifier::loop_isolation(false)]
pub fn keep_formulas(
    all: Vec<UnparseableFormula>,
    functions: &Vec<FunctionToVerify>,
    scoped: bool,
) -> (r: (Vec<UnparseableFormula>, usize))
    ensures
        ({
            let kept = reported_formulas(
                formula_views(all@),
                attributes::locked_views(functions@),
                scoped,
            );
            formula_views(r.0@) == kept && r.1 == all@.len() - kept.len()
        }),
{
    if !scoped {
        return (all, 0);
    }
    let ghost v = all@;
    let ghost vv = formula_views(all@);
    let ghost fv = attributes::locked_views(functions@);
    let total: usize = all.len();
    let mut rest = all;
    let mut out: Vec<UnparseableFormula> = Vec::new();
    let mut omitted: usize = 0;
    let ghost mut i: int = 0;
    proof {
        assert(v.skip(0) =~= v);
        assert(formula_views(out@) =~= seq![]);
    }
    while rest.len() > 0
        invariant
            0 <= i <= v.len() == total,
            rest@ == v.skip(i),
            formula_views(out@) == kept_formulas(vv, i, fv),
            omitted + out@.len() == i,
        decreases rest@.len(),
    {
        let ghost had = out@;
        let u = rest.remove(0);
        proof {
            assert(u == v[i]);
            assert(vv[i] == u@);
            assert(rest@ =~= v.skip(i + 1));
        }
        if unparseable_in_scope(u.section.as_str(), functions) {
            out.push(u);
            proof {
                assert(formula_views(out@) =~= formula_views(had).push(u@));
            }
        } else {
            omitted += 1;
        }
        proof {
            i = i + 1;
        }
    }
    proof {
        assert(vv.len() == v.len());
        assert(formula_views(out@).len() == out@.len());
    }
    (out, omitted)
}

// ---------------------------------------------------------------------------
// Drift
// ---------------------------------------------------------------------------
/// The sections of a specification, where there is one.
pub open spec fn sections_of(parser: Option<&SpecParser>) -> Seq<SectionView> {
    match parser {
        Some(p) => p.read(),
        None => seq![],
    }
}

/// Where functions and the sections of their specification have moved apart. With
/// `scoped_unparseables` conditions, and with `scoped_formulas` formulas, count only within sections
/// that a function names.
pub open spec fn drift(
    fs: Seq<LockedView>,
    v: Seq<SectionView>,
    scoped_unparseables: bool,
    scoped_formulas: bool,
) -> DriftView {
    let n = fs.len() as int;
    let conditions = unread(v, v.len() as int);
    let bodies = orange_paper::formulas_in(v, v.len() as int);
    let formulas = unread_formulas(bodies, bodies.len() as int);
    let kept = reported_conditions(conditions, fs, scoped_unparseables);
    let kept_bodies = reported_formulas(formulas, fs, scoped_formulas);
    DriftView {
        mismatched_contracts: mismatches(fs, n),
        missing_from_spec: without_contract(fs, n),
        missing_implementations: seq![],
        auto_inferred: unplaced(fs, n),
        unparseable_spec_contracts: kept,
        unparseable_formulas: kept_bodies,
        unparseable_omitted_outside_scope: (conditions.len() - kept.len()) as nat,
        unparseable_formulas_omitted_outside_scope: (formulas.len() - kept_bodies.len()) as nat,
        suspect_universal_claims: claims(v, v.len() as int),
    }
}

/// Where functions, with what the specification adds to them, and their specification have moved
/// apart. Without a specification only the functions are looked at.
#[verifier::loop_isolation(false)]
pub fn detect_drift(
    functions: &Vec<FunctionToVerify>,
    parser: Option<&SpecParser>,
    scoped_unparseables: bool,
    scoped_formulas: bool,
) -> (r: DriftResult)
    ensures
        r@ == drift(
            attributes::locked_views(functions@),
            sections_of(parser),
            scoped_unparseables,
            scoped_formulas,
        ),
{
    let ghost fv = attributes::locked_views(functions@);
    let ghost v = sections_of(parser);
    let mut mismatched: Vec<MismatchedContract> = Vec::new();
    let mut missing: Vec<FunctionToVerify> = Vec::new();
    let mut auto_inferred: Vec<FunctionToVerify> = Vec::new();
    let mut i: usize = 0;
    proof {
        assert(mismatch_views(mismatched@) =~= seq![]);
        assert(attributes::locked_views(missing@) =~= seq![]);
        assert(attributes::locked_views(auto_inferred@) =~= seq![]);
        assert(fv.len() == functions@.len());
    }
    while i < functions.len()
        invariant
            i <= functions@.len(),
            mismatch_views(mismatched@) == mismatches(fv, i as int),
            attributes::locked_views(missing@) == without_contract(fv, i as int),
            attributes::locked_views(auto_inferred@) == unplaced(fv, i as int),
        decreases functions@.len() - i,
    {
        let f = &functions[i];
        proof {
            assert(fv[i as int] == f@);
            assert(f@.contracts.len() == f.contracts@.len());
        }
        let ghost a = auto_inferred@;
        let ghost b = missing@;
        let ghost c = mismatched@;
        if f.section.is_none() {
            auto_inferred.push(copy_function(f));
            proof {
                assert(attributes::locked_views(auto_inferred@) =~= attributes::locked_views(a).push(
                    f@,
                ));
            }
        } else if f.contracts.len() == 0 {
            missing.push(copy_function(f));
            proof {
                assert(attributes::locked_views(missing@) =~= attributes::locked_views(b).push(f@));
                assert(mismatches(fv, i as int) + Seq::<MismatchView>::empty() =~= mismatches(
                    fv,
                    i as int,
                ));
            }
        } else {
            let mut found = mismatched_contracts(f);
            let ghost found_before = found@;
            mismatched.append(&mut found);
            proof {
                assert(mismatch_views(mismatched@) =~= mismatch_views(c) + mismatch_views(
                    found_before,
                ));
            }
        }
        i += 1;
    }
    let (conditions, suspects) = match parser {
        Some(p) => scan_sections(p),
        None => (Vec::new(), Vec::new()),
    };
    let formulas = match parser {
        Some(p) => {
            let all = p.formulas();
            proof {
                assert(orange_paper::formula_refs(all@).len() == all@.len());
            }
            formulas_unread(&all)
        },
        None => Vec::new(),
    };
    proof {
        assert(unread_views(conditions@).len() == conditions@.len());
        assert(formula_views(formulas@).len() == formulas@.len());
        if parser is None {
            assert(unread_views(conditions@) =~= seq![]);
            assert(claim_views(suspects@) =~= seq![]);
            assert(formula_views(formulas@) =~= seq![]);
        }
    }
    let (unparseable_spec_contracts, unparseable_omitted_outside_scope) = keep_conditions(
        conditions,
        functions,
        scoped_unparseables,
    );
    let (unparseable_formulas, unparseable_formulas_omitted_outside_scope) = keep_formulas(
        formulas,
        functions,
        scoped_formulas,
    );
    let r = DriftResult {
        mismatched_contracts: mismatched,
        missing_from_spec: missing,
        missing_implementations: Vec::new(),
        auto_inferred,
        unparseable_spec_contracts,
        unparseable_formulas,
        unparseable_omitted_outside_scope,
        unparseable_formulas_omitted_outside_scope,
        suspect_universal_claims: suspects,
    };
    proof {
        assert(text::views(r.missing_implementations@) =~= seq![]);
    }
    r
}

// ---------------------------------------------------------------------------
// Reports
// ---------------------------------------------------------------------------
/// A condition or a claim on a line of the report.
pub open spec fn placed_line(section: Seq<char>, function: Seq<char>, condition: Seq<char>) -> Seq<
    char,
> {
    "  "@ + section + "::"@ + function + ": "@ + condition + "\n"@
}

/// A condition or a claim on a line of the report.
pub fn line_of_place(section: &str, function: &str, condition: &str) -> (r: String)
    ensures
        r@ == placed_line(section@, function@, condition@),
{
    let mut out = "  ".to_owned();
    out.append(section);
    out.append("::");
    out.append(function);
    out.append(": ");
    out.append(condition);
    out.append("\n");
    out
}

/// The report on drift.
pub struct DriftReport;

impl Printed<DriftReport> for MismatchedContract {
    open spec fn printed(self) -> Seq<char> {
        "  Function: "@ + self.function.function_name@ + " (Section "@ + self.section@ + ")\n"@
            + report::text_line("    Orange Paper: "@, self.orange_paper_contract@)
            + report::text_line("    Implementation: "@, self.implementation_contract@) + "\n"@
    }

    fn print(&self) -> (r: String) {
        let mut out = "  Function: ".to_owned();
        out.append(self.function.function_name.as_str());
        out.append(" (Section ");
        out.append(self.section.as_str());
        out.append(")\n");
        out.append(
            line_of_text("    Orange Paper: ", self.orange_paper_contract.as_str()).as_str(),
        );
        out.append(
            line_of_text("    Implementation: ", self.implementation_contract.as_str()).as_str(),
        );
        out.append("\n");
        out
    }
}

impl Printed<DriftReport> for FunctionToVerify {
    open spec fn printed(self) -> Seq<char> {
        "  "@ + self.function_name@ + " ("@ + self.file_path@ + ")\n"@
    }

    fn print(&self) -> (r: String) {
        let mut out = "  ".to_owned();
        out.append(self.function_name.as_str());
        out.append(" (");
        out.append(self.file_path.as_str());
        out.append(")\n");
        out
    }
}

impl Printed<DriftReport> for UnparseableContract {
    open spec fn printed(self) -> Seq<char> {
        placed_line(self.section@, self.function@, self.condition@)
    }

    fn print(&self) -> (r: String) {
        line_of_place(self.section.as_str(), self.function.as_str(), self.condition.as_str())
    }
}

impl Printed<DriftReport> for SuspectUniversalClaim {
    open spec fn printed(self) -> Seq<char> {
        placed_line(self.section@, self.function@, self.condition@)
    }

    fn print(&self) -> (r: String) {
        line_of_place(self.section.as_str(), self.function.as_str(), self.condition.as_str())
    }
}

impl Printed<DriftReport> for UnparseableFormula {
    open spec fn printed(self) -> Seq<char> {
        "  "@ + self.id@ + " §"@ + self.section@ + ": "@ + self.body_preview@ + "\n"@
    }

    fn print(&self) -> (r: String) {
        let mut out = "  ".to_owned();
        out.append(self.id.as_str());
        out.append(" §");
        out.append(self.section.as_str());
        out.append(": ");
        out.append(self.body_preview.as_str());
        out.append("\n");
        out
    }
}

/// The part of the report on contracts and functions.
pub open spec fn function_part(d: DriftResult) -> Seq<char> {
    let s = "=== Spec Drift Detection Report ===\n\n"@;
    let s = if d.mismatched_contracts@.len() > 0 {
        s + "⚠️  Mismatched Contracts:\n"@ + "------------------------\n"@ + report::all_printed::<
            DriftReport,
            MismatchedContract,
        >(d.mismatched_contracts@, d.mismatched_contracts@.len() as int)
    } else {
        s
    };
    let s = if d.missing_from_spec@.len() > 0 {
        s + "❌ Functions Missing from Orange Paper:\n"@
            + "--------------------------------------\n"@ + report::all_printed::<
            DriftReport,
            FunctionToVerify,
        >(d.missing_from_spec@, d.missing_from_spec@.len() as int) + "\n"@
    } else {
        s
    };
    if d.auto_inferred@.len() > 0 {
        s + "ℹ️  Auto-Inferred Functions (verify manually):\n"@
            + "---------------------------------------------\n"@ + report::all_printed::<
            DriftReport,
            FunctionToVerify,
        >(d.auto_inferred@, d.auto_inferred@.len() as int) + "\n"@
    } else {
        s
    }
}

fn print_functions(d: &DriftResult) -> (r: String)
    ensures
        r@ == function_part(*d),
{
    let mut s = "=== Spec Drift Detection Report ===\n\n".to_owned();
    if d.mismatched_contracts.len() > 0 {
        s.append("⚠️  Mismatched Contracts:\n");
        s.append("------------------------\n");
        s.append(
            print_all::<DriftReport, MismatchedContract>(&d.mismatched_contracts).as_str(),
        );
    }
    if d.missing_from_spec.len() > 0 {
        s.append("❌ Functions Missing from Orange Paper:\n");
        s.append("--------------------------------------\n");
        s.append(print_all::<DriftReport, FunctionToVerify>(&d.missing_from_spec).as_str());
        s.append("\n");
    }
    if d.auto_inferred.len() > 0 {
        s.append("ℹ️  Auto-Inferred Functions (verify manually):\n");
        s.append("---------------------------------------------\n");
        s.append(print_all::<DriftReport, FunctionToVerify>(&d.auto_inferred).as_str());
        s.append("\n");
    }
    s
}

/// The report up to and with the part on the specification.
pub open spec fn spec_part(d: DriftResult) -> Seq<char> {
    let s = function_part(d);
    let s = if d.unparseable_spec_contracts@.len() > 0 {
        s + "⚠️  Unparseable Spec Contracts (can't verify):\n"@
            + "--------------------------------------------\n"@ + report::ten_printed::<
            DriftReport,
            UnparseableContract,
        >(d.unparseable_spec_contracts@) + "\n"@
    } else {
        s
    };
    let s = if d.unparseable_formulas@.len() > 0 {
        s
            + "⚠️  Unparseable **Formula** (`F_*`) bodies (enrich/verify parse gate failed):\n"@
            + "------------------------------------------------------------------\n"@
            + report::ten_printed::<DriftReport, UnparseableFormula>(d.unparseable_formulas@)
            + "\n"@
    } else {
        s
    };
    if d.suspect_universal_claims@.len() > 0 {
        s + "🔍 Suspect Universal Claims (`result == true/false` with no antecedent):\n"@
            + "------------------------------------------------------------------------\n"@
            + "   These may be missing conditionals, e.g. `A \\implies result = \\text{true}`.\n"@
            + report::ten_printed::<DriftReport, SuspectUniversalClaim>(d.suspect_universal_claims@)
            + "\n"@
    } else {
        s
    }
}

fn print_spec(d: &DriftResult) -> (r: String)
    ensures
        r@ == spec_part(*d),
{
    let mut s = print_functions(d);
    if d.unparseable_spec_contracts.len() > 0 {
        s.append("⚠️  Unparseable Spec Contracts (can't verify):\n");
        s.append("--------------------------------------------\n");
        s.append(
            print_ten::<DriftReport, UnparseableContract>(&d.unparseable_spec_contracts).as_str(),
        );
        s.append("\n");
    }
    if d.unparseable_formulas.len() > 0 {
        s.append(
            "⚠️  Unparseable **Formula** (`F_*`) bodies (enrich/verify parse gate failed):\n",
        );
        s.append("------------------------------------------------------------------\n");
        s.append(print_ten::<DriftReport, UnparseableFormula>(&d.unparseable_formulas).as_str());
        s.append("\n");
    }
    if d.suspect_universal_claims.len() > 0 {
        s.append("🔍 Suspect Universal Claims (`result == true/false` with no antecedent):\n");
        s.append("------------------------------------------------------------------------\n");
        s.append(
            "   These may be missing conditionals, e.g. `A \\implies result = \\text{true}`.\n",
        );
        s.append(
            print_ten::<DriftReport, SuspectUniversalClaim>(&d.suspect_universal_claims).as_str(),
        );
        s.append("\n");
    }
    s
}

/// Whether there is no drift. A function that names no section is none.
pub open spec fn in_sync(d: DriftResult) -> bool {
    &&& d.mismatched_contracts@.len() == 0
    &&& d.missing_from_spec@.len() == 0
    &&& d.missing_implementations@.len() == 0
    &&& d.unparseable_spec_contracts@.len() == 0
    &&& d.unparseable_formulas@.len() == 0
    &&& d.suspect_universal_claims@.len() == 0
}

/// The report on drift.
pub open spec fn drift_text(d: DriftResult) -> Seq<char> {
    let s = spec_part(d) + "Summary:\n"@ + "--------\n"@ + report::count_line(
        "  Mismatched contracts: "@,
        d.mismatched_contracts@.len(),
    ) + report::count_line("  Missing from spec: "@, d.missing_from_spec@.len())
        + report::count_line(
        "  Unparseable spec contracts: "@,
        d.unparseable_spec_contracts@.len(),
    ) + report::count_line("  Unparseable **Formula** (`F_*`): "@, d.unparseable_formulas@.len());
    let s = if d.unparseable_omitted_outside_scope > 0 {
        s + report::count_line(
            "  Unparseable contracts outside scoped sections (omitted): "@,
            d.unparseable_omitted_outside_scope as nat,
        )
    } else {
        s
    };
    let s = if d.unparseable_formulas_omitted_outside_scope > 0 {
        s + report::count_line(
            "  Unparseable formulas outside scoped sections (omitted): "@,
            d.unparseable_formulas_omitted_outside_scope as nat,
        )
    } else {
        s
    };
    let s = s + report::count_line("  Auto-inferred: "@, d.auto_inferred@.len())
        + report::count_line("  Missing implementations: "@, d.missing_implementations@.len());
    let s = if d.suspect_universal_claims@.len() > 0 {
        s + report::count_line(
            "  Suspect universal claims (lint): "@,
            d.suspect_universal_claims@.len(),
        )
    } else {
        s
    };
    if in_sync(d) {
        s + "\n✅ No drift detected! Spec and implementation are in sync.\n"@
    } else {
        s
    }
}

/// The report on drift, as text.
pub fn format_drift_human(result: &DriftResult) -> (r: String)
    ensures
        r@ == drift_text(*result),
{
    let mut s = print_spec(result);
    s.append("Summary:\n");
    s.append("--------\n");
    s.append(
        line_of_count("  Mismatched contracts: ", result.mismatched_contracts.len()).as_str(),
    );
    s.append(line_of_count("  Missing from spec: ", result.missing_from_spec.len()).as_str());
    s.append(
        line_of_count(
            "  Unparseable spec contracts: ",
            result.unparseable_spec_contracts.len(),
        ).as_str(),
    );
    s.append(
        line_of_count(
            "  Unparseable **Formula** (`F_*`): ",
            result.unparseable_formulas.len(),
        ).as_str(),
    );
    if result.unparseable_omitted_outside_scope > 0 {
        s.append(
            line_of_count(
                "  Unparseable contracts outside scoped sections (omitted): ",
                result.unparseable_omitted_outside_scope,
            ).as_str(),
        );
    }
    if result.unparseable_formulas_omitted_outside_scope > 0 {
        s.append(
            line_of_count(
                "  Unparseable formulas outside scoped sections (omitted): ",
                result.unparseable_formulas_omitted_outside_scope,
            ).as_str(),
        );
    }
    s.append(line_of_count("  Auto-inferred: ", result.auto_inferred.len()).as_str());
    s.append(
        line_of_count("  Missing implementations: ", result.missing_implementations.len()).as_str(),
    );
    if result.suspect_universal_claims.len() > 0 {
        s.append(
            line_of_count(
                "  Suspect universal claims (lint): ",
                result.suspect_universal_claims.len(),
            ).as_str(),
        );
    }
    if result.mismatched_contracts.len() == 0 && result.missing_from_spec.len() == 0
        && result.missing_implementations.len() == 0 && result.unparseable_spec_contracts.len() == 0
        && result.unparseable_formulas.len() == 0 && result.suspect_universal_claims.len() == 0 {
        s.append("\n✅ No drift detected! Spec and implementation are in sync.\n");
    }
    s
}

/// A condition or a claim as a JSON value.
pub open spec fn placed_json(section: Seq<char>, function: Seq<char>, condition: Seq<char>) -> JsonForm {
    JsonForm::Object(
        map!["section"@ => JsonForm::Text(section), "function"@ => JsonForm::Text(function),
            "condition"@ => JsonForm::Text(condition)],
    )
}

fn record_place(section: &str, function: &str, condition: &str) -> (r: serde_json::Value)
    ensures
        json::json_content(r) == placed_json(section@, function@, condition@),
{
    let mut o = Fields::new();
    o.put_text("section", section);
    o.put_text("function", function);
    o.put_text("condition", condition);
    o.close()
}

impl Recorded<DriftReport> for MismatchedContract {
    open spec fn recorded(self) -> JsonForm {
        JsonForm::Object(
            map!["function"@ => JsonForm::Text(self.function.function_name@),
                "file"@ => JsonForm::Text(self.function.file_path@),
                "section"@ => JsonForm::Text(self.section@),
                "orange_paper_contract"@ => JsonForm::Text(self.orange_paper_contract@),
                "implementation_contract"@ => JsonForm::Text(self.implementation_contract@)],
        )
    }

    fn record(&self) -> (r: serde_json::Value) {
        let mut o = Fields::new();
        o.put_text("function", self.function.function_name.as_str());
        o.put_text("file", self.function.file_path.as_str());
        o.put_text("section", self.section.as_str());
        o.put_text("orange_paper_contract", self.orange_paper_contract.as_str());
        o.put_text("implementation_contract", self.implementation_contract.as_str());
        o.close()
    }
}

impl Recorded<DriftReport> for FunctionToVerify {
    open spec fn recorded(self) -> JsonForm {
        JsonForm::Object(
            map!["function"@ => JsonForm::Text(self.function_name@),
                "file"@ => JsonForm::Text(self.file_path@)],
        )
    }

    fn record(&self) -> (r: serde_json::Value) {
        let mut o = Fields::new();
        o.put_text("function", self.function_name.as_str());
        o.put_text("file", self.file_path.as_str());
        o.close()
    }
}

impl Recorded<DriftReport> for UnparseableContract {
    open spec fn recorded(self) -> JsonForm {
        placed_json(self.section@, self.function@, self.condition@)
    }

    fn record(&self) -> (r: serde_json::Value) {
        record_place(self.section.as_str(), self.function.as_str(), self.condition.as_str())
    }
}

impl Recorded<DriftReport> for SuspectUniversalClaim {
    open spec fn recorded(self) -> JsonForm {
        placed_json(self.section@, self.function@, self.condition@)
    }

    fn record(&self) -> (r: serde_json::Value) {
        record_place(self.section.as_str(), self.function.as_str(), self.condition.as_str())
    }
}

impl Recorded<DriftReport> for UnparseableFormula {
    open spec fn recorded(self) -> JsonForm {
        JsonForm::Object(
            map!["id"@ => JsonForm::Text(self.id@), "section"@ => JsonForm::Text(self.section@),
                "body_preview"@ => JsonForm::Text(self.body_preview@)],
        )
    }

    fn record(&self) -> (r: serde_json::Value) {
        let mut o = Fields::new();
        o.put_text("id", self.id.as_str());
        o.put_text("section", self.section.as_str());
        o.put_text("body_preview", self.body_preview.as_str());
        o.close()
    }
}

/// The report on drift as a JSON value.
pub open spec fn drift_json(d: DriftResult) -> JsonForm {
    JsonForm::Object(
        map![
            "mismatched_contracts"@ => report::all_recorded::<DriftReport, MismatchedContract>(
                d.mismatched_contracts@,
            ),
            "missing_from_spec"@ => report::all_recorded::<DriftReport, FunctionToVerify>(
                d.missing_from_spec@,
            ),
            "unparseable_spec_contracts"@ => report::all_recorded::<
                DriftReport,
                UnparseableContract,
            >(d.unparseable_spec_contracts@),
            "auto_inferred"@ => report::all_recorded::<DriftReport, FunctionToVerify>(
                d.auto_inferred@,
            ),
            "missing_implementations"@ => json::texts(text::views(d.missing_implementations@)),
            "unparseable_omitted_outside_scope"@ => json::number(
                d.unparseable_omitted_outside_scope as nat,
            ),
            "unparseable_formulas"@ => report::all_recorded::<DriftReport, UnparseableFormula>(
                d.unparseable_formulas@,
            ),
            "unparseable_formulas_omitted_outside_scope"@ => json::number(
                d.unparseable_formulas_omitted_outside_scope as nat,
            ),
            "suspect_universal_claims"@ => report::all_recorded::<
                DriftReport,
                SuspectUniversalClaim,
            >(d.suspect_universal_claims@),
        ],
    )
}

/// The report on drift, as JSON.
pub fn format_drift_json(result: &DriftResult) -> (r: String)
    ensures
        r@ == json::json_compact(drift_json(*result)),
{
    let mut o = Fields::new();
    o.put(
        "mismatched_contracts",
        record_all::<DriftReport, MismatchedContract>(&result.mismatched_contracts),
    );
    o.put(
        "missing_from_spec",
        record_all::<DriftReport, FunctionToVerify>(&result.missing_from_spec),
    );
    o.put(
        "unparseable_spec_contracts",
        record_all::<DriftReport, UnparseableContract>(&result.unparseable_spec_contracts),
    );
    o.put("auto_inferred", record_all::<DriftReport, FunctionToVerify>(&result.auto_inferred));
    o.put("missing_implementations", list_of_texts(&result.missing_implementations));
    o.put_count("unparseable_omitted_outside_scope", result.unparseable_omitted_outside_scope);
    o.put(
        "unparseable_formulas",
        record_all::<DriftReport, UnparseableFormula>(&result.unparseable_formulas),
    );
    o.put_count(
        "unparseable_formulas_omitted_outside_scope",
        result.unparseable_formulas_omitted_outside_scope,
    );
    o.put(
        "suspect_universal_claims",
        record_all::<DriftReport, SuspectUniversalClaim>(&result.suspect_universal_claims),
    );
    let v = o.close();
    compact(&v)
}

// ---------------------------------------------------------------------------
// Laws
// ---------------------------------------------------------------------------
/// A contract says the same as itself.
pub proof fn law_similar_to_itself(c: Seq<char>)
    ensures
        similar(c, c),
{
}

proof fn lemma_true_is_normal()
    ensures
        chars::ascii_only("true"@),
        ascii_normal("true"@) == "true"@,
{
    let t = "true"@;
    reveal_strlit("true");
    reveal_strlit(" ");
    let low = t.map_values(|c: char| chars::ascii_lower(c));
    assert(low =~= t);
    text::lemma_lacks(t, " "@, 0);
    text::lemma_absent(t, " "@, ""@);
}

/// `true` is the weakest demand: a contract of the specification whose normal form it is says the
/// same as every contract of the code.
pub proof fn law_true_is_weakest(spec: Seq<char>, code: Seq<char>)
    requires
        normal(spec) == "true"@,
    ensures
        similar(spec, code),
{
}

/// Whether contracts say the same depends on their normal forms alone.
pub proof fn law_similar_by_normal_form(
    spec: Seq<char>,
    code: Seq<char>,
    other_spec: Seq<char>,
    other_code: Seq<char>,
)
    requires
        normal(spec) == normal(other_spec),
        normal(code) == normal(other_code),
    ensures
        similar(spec, code) == similar(other_spec, other_code),
{
}

/// Contracts with one normal form say the same.
pub proof fn law_equal_normal_forms_are_similar(spec: Seq<char>, code: Seq<char>)
    requires
        normal(spec) == normal(code),
    ensures
        similar(spec, code),
{
}

/// Where neither contract is `true`, it does not matter which of the two the specification has.
pub proof fn law_similar_is_symmetric(spec: Seq<char>, code: Seq<char>)
    requires
        normal(spec) != "true"@,
        normal(code) != "true"@,
    ensures
        similar(spec, code) == similar(code, spec),
{
}

/// A contract in the code is never a mismatch where the specification, for that kind of contract, asks
/// only for `true`.
pub proof fn law_true_is_refined(cs: Seq<ContractView>, m: ContractView, i: int)
    requires
        0 <= i < cs.len(),
        cs[i].is_spec_derived,
        cs[i].contract_type == m.contract_type,
        normal(cs[i].condition) == "true"@,
    ensures
        answered(cs, m),
{
}

proof fn lemma_kept_conditions(v: Seq<PlacedView>, n: int, fs: Seq<LockedView>)
    requires
        0 <= n <= v.len(),
    ensures
        kept_conditions(v, n, fs).len() <= n,
        forall|x: PlacedView|
            #[trigger] kept_conditions(v, n, fs).contains(x) <==> v.take(n).contains(x) && in_scope(
                x.section,
                fs,
            ),
    decreases n,
{
    if n > 0 {
        lemma_kept_conditions(v, n - 1, fs);
        let before = kept_conditions(v, n - 1, fs);
        let now = kept_conditions(v, n, fs);
        assert(v.take(n) =~= v.take(n - 1).push(v[n - 1]));
        assert forall|x: PlacedView| #[trigger] now.contains(x) <==> v.take(n).contains(x)
            && in_scope(x.section, fs) by {
            lemma_push_contains(v.take(n - 1), v[n - 1], x);
            lemma_push_contains(before, v[n - 1], x);
        }
    }
}

proof fn lemma_kept_formulas(v: Seq<UnreadView>, n: int, fs: Seq<LockedView>)
    requires
        0 <= n <= v.len(),
    ensures
        kept_formulas(v, n, fs).len() <= n,
        forall|x: UnreadView|
            #[trigger] kept_formulas(v, n, fs).contains(x) <==> v.take(n).contains(x) && in_scope(
                x.section,
                fs,
            ),
    decreases n,
{
    if n > 0 {
        lemma_kept_formulas(v, n - 1, fs);
        let before = kept_formulas(v, n - 1, fs);
        let now = kept_formulas(v, n, fs);
        assert(v.take(n) =~= v.take(n - 1).push(v[n - 1]));
        assert forall|x: UnreadView| #[trigger] now.contains(x) <==> v.take(n).contains(x)
            && in_scope(x.section, fs) by {
            lemma_push_contains(v.take(n - 1), v[n - 1], x);
            lemma_push_contains(before, v[n - 1], x);
        }
    }
}

proof fn lemma_push_contains<A>(s: Seq<A>, a: A, x: A)
    ensures
        s.push(a).contains(x) <==> s.contains(x) || x == a,
{
    let t = s.push(a);
    if s.contains(x) {
        let i = choose|i: int| 0 <= i < s.len() && s[i] == x;
        assert(t[i] == x);
    }
    if x == a {
        assert(t[s.len() as int] == x);
    }
    if t.contains(x) {
        let i = choose|i: int| 0 <= i < t.len() && t[i] == x;
        if i < s.len() {
            assert(s[i] == x);
        }
    }
}

/// Every condition that cannot be read is reported or counted as left out, and none is left out
/// without `scoped_unparseables`.
pub proof fn law_conditions_are_accounted_for(
    fs: Seq<LockedView>,
    v: Seq<SectionView>,
    scoped_unparseables: bool,
    scoped_formulas: bool,
)
    ensures
        ({
            let d = drift(fs, v, scoped_unparseables, scoped_formulas);
            let all = unread(v, v.len() as int);
            &&& d.unparseable_spec_contracts.len() + d.unparseable_omitted_outside_scope == all.len()
            &&& !scoped_unparseables ==> d.unparseable_spec_contracts == all
            &&& scoped_unparseables ==> forall|x: PlacedView|
                #[trigger] d.unparseable_spec_contracts.contains(x) <==> all.contains(x) && in_scope(
                    x.section,
                    fs,
                )
        }),
{
    let all = unread(v, v.len() as int);
    lemma_kept_conditions(all, all.len() as int, fs);
    assert(all.take(all.len() as int) =~= all);
}

/// Every formula that cannot be read is reported or counted as left out, and none is left out without
/// `scoped_formulas`.
pub proof fn law_formulas_are_accounted_for(
    fs: Seq<LockedView>,
    v: Seq<SectionView>,
    scoped_unparseables: bool,
    scoped_formulas: bool,
)
    ensures
        ({
            let d = drift(fs, v, scoped_unparseables, scoped_formulas);
            let bodies = orange_paper::formulas_in(v, v.len() as int);
            let all = unread_formulas(bodies, bodies.len() as int);
            &&& d.unparseable_formulas.len() + d.unparseable_formulas_omitted_outside_scope == all.len()
            &&& !scoped_formulas ==> d.unparseable_formulas == all
            &&& scoped_formulas ==> forall|x: UnreadView|
                #[trigger] d.unparseable_formulas.contains(x) <==> all.contains(x) && in_scope(
                    x.section,
                    fs,
                )
        }),
{
    let bodies = orange_paper::formulas_in(v, v.len() as int);
    let all = unread_formulas(bodies, bodies.len() as int);
    lemma_kept_formulas(all, all.len() as int, fs);
    assert(all.take(all.len() as int) =~= all);
}

proof fn lemma_kept_conditions_filter(v: Seq<PlacedView>, n: int, fs: Seq<LockedView>)
    requires
        0 <= n <= v.len(),
    ensures
        kept_conditions(v, n, fs) == v.take(n).filter(|x: PlacedView| in_scope(x.section, fs)),
    decreases n,
{
    reveal(Seq::filter);
    if n > 0 {
        lemma_kept_conditions_filter(v, n - 1, fs);
        assert(v.take(n).drop_last() =~= v.take(n - 1));
        assert(v.take(n).last() == v[n - 1]);
    } else {
        assert(v.take(n) =~= seq![]);
    }
}

proof fn lemma_kept_formulas_filter(v: Seq<UnreadView>, n: int, fs: Seq<LockedView>)
    requires
        0 <= n <= v.len(),
    ensures
        kept_formulas(v, n, fs) == v.take(n).filter(|x: UnreadView| in_scope(x.section, fs)),
    decreases n,
{
    reveal(Seq::filter);
    if n > 0 {
        lemma_kept_formulas_filter(v, n - 1, fs);
        assert(v.take(n).drop_last() =~= v.take(n - 1));
        assert(v.take(n).last() == v[n - 1]);
    } else {
        assert(v.take(n) =~= seq![]);
    }
}

/// A scope only takes away, and says how much. Without it nothing is left out. With it the conditions
/// and the formulas are those of the full report that lie in scope, each as often as there and in the
/// same order, and the rest is counted as left out. Nothing else changes.
pub proof fn law_scope_only_takes_away(
    fs: Seq<LockedView>,
    v: Seq<SectionView>,
    scoped_unparseables: bool,
    scoped_formulas: bool,
)
    ensures
        ({
            let full = drift(fs, v, false, false);
            let d = drift(fs, v, scoped_unparseables, scoped_formulas);
            let conditions = full.unparseable_spec_contracts;
            let formulas = full.unparseable_formulas;
            let kept = if scoped_unparseables {
                conditions.filter(|x: PlacedView| in_scope(x.section, fs))
            } else {
                conditions
            };
            let kept_bodies = if scoped_formulas {
                formulas.filter(|x: UnreadView| in_scope(x.section, fs))
            } else {
                formulas
            };
            &&& full.unparseable_omitted_outside_scope == 0
            &&& full.unparseable_formulas_omitted_outside_scope == 0
            &&& kept.len() <= conditions.len()
            &&& kept_bodies.len() <= formulas.len()
            &&& d == (DriftView {
                unparseable_spec_contracts: kept,
                unparseable_formulas: kept_bodies,
                unparseable_omitted_outside_scope: (conditions.len() - kept.len()) as nat,
                unparseable_formulas_omitted_outside_scope: (formulas.len() - kept_bodies.len()) as nat,
                ..full
            })
        }),
{
    let conditions = unread(v, v.len() as int);
    let bodies = orange_paper::formulas_in(v, v.len() as int);
    let formulas = unread_formulas(bodies, bodies.len() as int);
    lemma_kept_conditions(conditions, conditions.len() as int, fs);
    lemma_kept_conditions_filter(conditions, conditions.len() as int, fs);
    lemma_kept_formulas(formulas, formulas.len() as int, fs);
    lemma_kept_formulas_filter(formulas, formulas.len() as int, fs);
    assert(conditions.take(conditions.len() as int) =~= conditions);
    assert(formulas.take(formulas.len() as int) =~= formulas);
}

/// A condition in a section that a function names is in scope.
pub proof fn law_named_section_is_in_scope(fs: Seq<LockedView>, i: int, section: Seq<char>)
    requires
        0 <= i < fs.len(),
        fs[i].section == Some(section),
    ensures
        in_scope(section, fs),
{
    orange_paper::law_number_extends_itself(section);
}

/// Every function is in order, or reported once: as one that names no section, or as one that names a
/// section and has no contract.
pub proof fn law_functions_are_accounted_for(fs: Seq<LockedView>, n: int)
    requires
        0 <= n <= fs.len(),
    ensures
        forall|f: LockedView|
            #[trigger] unplaced(fs, n).contains(f) <==> fs.take(n).contains(f) && f.section is None,
        forall|f: LockedView|
            #[trigger] without_contract(fs, n).contains(f) <==> fs.take(n).contains(f)
                && f.section is Some && f.contracts.len() == 0,
    decreases n,
{
    if n > 0 {
        law_functions_are_accounted_for(fs, n - 1);
        let a = unplaced(fs, n - 1);
        let b = without_contract(fs, n - 1);
        let x = fs[n - 1];
        assert(fs.take(n) =~= fs.take(n - 1).push(x));
        assert forall|f: LockedView| #[trigger] unplaced(fs, n).contains(f) <==> fs.take(
            n,
        ).contains(f) && f.section is None by {
            lemma_push_contains(fs.take(n - 1), x, f);
            lemma_push_contains(a, x, f);
        }
        assert forall|f: LockedView| #[trigger] without_contract(fs, n).contains(f) <==> fs.take(
            n,
        ).contains(f) && f.section is Some && f.contracts.len() == 0 by {
            lemma_push_contains(fs.take(n - 1), x, f);
            lemma_push_contains(b, x, f);
        }
    }
}

/// What stands within a section that a function names is in scope too, and nothing is in scope where no
/// function names a section.
pub proof fn law_subsections_are_in_scope(
    fs: Seq<LockedView>,
    i: int,
    section: Seq<char>,
    rest: Seq<char>,
)
    ensures
        0 <= i < fs.len() && fs[i].section == Some(section) ==> in_scope(section + "."@ + rest, fs),
        (forall|k: int| 0 <= k < fs.len() ==> (#[trigger] fs[k]).section is None) ==> !in_scope(
            section,
            fs,
        ),
{
    orange_paper::law_only_subsections_extend(section, rest, 'x');
    if 0 <= i < fs.len() && fs[i].section == Some(section) {
        assert(in_scope(section + "."@ + rest, fs));
    }
}

/// A section whose number only goes on with another digit is not in scope.
pub proof fn law_longer_numbers_are_out_of_scope(f: LockedView, section: Seq<char>, c: char)
    requires
        c != '.',
        f.section == Some(section),
    ensures
        !in_scope(section.push(c), seq![f]),
{
    orange_paper::law_only_subsections_extend(section, seq![], c);
}

/// A contract that stands in another one says the same as that one, and two contracts of one
/// length that differ do not.
pub proof fn law_similar_contracts_hold_each_other(a: Seq<char>, x: Seq<char>, y: Seq<char>, b: Seq<char>)
    ensures
        similar_given(a, x + a + y),
        similar_given(x + a + y, a),
        a.len() == b.len() && a != b && a != "true"@ ==> !similar_given(a, b),
{
    let s = x + a + y;
    let n = x.len() as int;
    assert(s.subrange(n, n + a.len()) =~= a);
    assert(text::occurs_at(s, a, n));
    if a.len() == b.len() && a != b {
        if text::holds(a, b) {
            let i = choose|i: int| text::occurs_at(a, b, i);
            assert(a.subrange(i, i + b.len()) =~= a);
        }
        if text::holds(b, a) {
            let i = choose|i: int| text::occurs_at(b, a, i);
            assert(b.subrange(i, i + a.len()) =~= b);
        }
    }
}

/// A statement that names a condition, joins or denies something is no bare claim, whatever it becomes.
pub proof fn law_conditions_are_no_bare_claims(
    a: Seq<char>,
    sign: Seq<char>,
    b: Seq<char>,
    parsed: Seq<char>,
)
    requires
        sign == "=>"@ || sign == "\\implies"@ || sign == "\\rightarrow"@ || sign == "\\iff"@ || sign
            == "\\land"@ || sign == "\\neg"@,
    ensures
        !bare_given(a + sign + b, parsed),
{
    let n = a.len() as int;
    assert((a + sign + b).subrange(n, n + sign.len()) =~= sign);
    assert(text::occurs_at(a + sign + b, sign, n));
}

proof fn lemma_first_derived(cs: Seq<ContractView>, k: ContractType, i: int)
    requires
        0 <= i <= cs.len(),
    ensures
        first_derived(cs, k, i) is Some <==> exists|j: int|
            i <= j < cs.len() && (#[trigger] cs[j]).is_spec_derived && cs[j].contract_type == k,
        first_derived(cs, k, i) matches Some(s) ==> exists|j: int|
            i <= j < cs.len() && (#[trigger] cs[j]).is_spec_derived && cs[j].contract_type == k && cs[j] == s,
    decreases cs.len() - i,
{
    if i < cs.len() {
        lemma_first_derived(cs, k, i + 1);
        if cs[i].is_spec_derived && cs[i].contract_type == k {
        } else {
            if let Some(s) = first_derived(cs, k, i + 1) {
                let j = choose|j: int|
                    i + 1 <= j < cs.len() && (#[trigger] cs[j]).is_spec_derived && cs[j].contract_type
                        == k && cs[j] == s;
                assert(cs[j].is_spec_derived);
            }
        }
    }
}

/// Whether a contract of the code has moved away from the specification: the specification has
/// contracts of its kind, and it says the same as none of them.
pub open spec fn moved_away(cs: Seq<ContractView>, i: int) -> bool {
    &&& 0 <= i < cs.len()
    &&& !cs[i].is_spec_derived
    &&& exists|j: int|
        0 <= j < cs.len() && (#[trigger] cs[j]).is_spec_derived && cs[j].contract_type
            == cs[i].contract_type
    &&& forall|j: int|
        0 <= j < cs.len() && (#[trigger] cs[j]).is_spec_derived && cs[j].contract_type
            == cs[i].contract_type ==> !similar(cs[j].condition, cs[i].condition)
}

/// Every contract of a function that has moved away from the specification is reported, and
/// nothing else: each report names such a contract, and one of the specification of its kind.
pub proof fn law_mismatches_are_reported(f: LockedView, n: int)
    requires
        0 <= n <= f.contracts.len(),
    ensures
        forall|i: int|
            0 <= i < n && moved_away(f.contracts, i) ==> exists|k: int|
                0 <= k < mismatches_in(f, n).len() && (#[trigger] mismatches_in(
                    f,
                    n,
                )[k]).implementation_contract == (#[trigger] f.contracts[i]).condition,
        forall|k: int|
            0 <= k < mismatches_in(f, n).len() ==> (#[trigger] mismatches_in(f, n)[k]).function == f && (
            exists|i: int|
                moved_away(f.contracts, i) && mismatches_in(f, n)[k].implementation_contract == (
                #[trigger] f.contracts[i]).condition),
    decreases n,
{
    if n > 0 {
        law_mismatches_are_reported(f, n - 1);
        let done = mismatches_in(f, n - 1);
        let all = mismatches_in(f, n);
        let m = f.contracts[n - 1];
        lemma_first_derived(f.contracts, m.contract_type, 0);
        assert(moved_away(f.contracts, n - 1) <==> first_derived(f.contracts, m.contract_type, 0)
            is Some && !m.is_spec_derived && !answered(f.contracts, m));
        assert forall|i: int| 0 <= i < n && moved_away(f.contracts, i) implies exists|k: int|
            0 <= k < all.len() && (#[trigger] all[k]).implementation_contract == (
            #[trigger] f.contracts[i]).condition by {
            if i < n - 1 {
                let k = choose|k: int|
                    0 <= k < done.len() && (#[trigger] done[k]).implementation_contract
                        == f.contracts[i].condition;
                assert(all[k] == done[k]);
            } else {
                assert(all[done.len() as int].implementation_contract == m.condition);
            }
        }
        assert forall|k: int| 0 <= k < all.len() implies (#[trigger] all[k]).function == f && (exists|i:
            int|
            moved_away(f.contracts, i) && all[k].implementation_contract == (
            #[trigger] f.contracts[i]).condition) by {
            if k < done.len() {
                assert(all[k] == done[k]);
            } else {
                assert(moved_away(f.contracts, n - 1));
            }
        }
    }
}

/// The mismatches are those of the functions that name a section.
pub proof fn law_only_placed_functions_mismatch(fs: Seq<LockedView>, n: int, x: MismatchView)
    requires
        0 <= n <= fs.len(),
    ensures
        mismatches(fs, n).contains(x) <==> exists|i: int|
            0 <= i < n && (#[trigger] fs[i]).section is Some && mismatches_in(
                fs[i],
                fs[i].contracts.len() as int,
            ).contains(x),
    decreases n,
{
    if n > 0 {
        law_only_placed_functions_mismatch(fs, n - 1, x);
        let f = fs[n - 1];
        let done = mismatches(fs, n - 1);
        let own = mismatches_in(f, f.contracts.len() as int);
        if f.section is Some {
            if done.contains(x) {
                let k = choose|k: int| 0 <= k < done.len() && done[k] == x;
                assert((done + own)[k] == x);
            }
            if own.contains(x) {
                let k = choose|k: int| 0 <= k < own.len() && own[k] == x;
                assert((done + own)[done.len() + k] == x);
            }
            if (done + own).contains(x) {
                let k = choose|k: int| 0 <= k < (done + own).len() && (done + own)[k] == x;
                if k < done.len() {
                    assert(done[k] == x);
                } else {
                    assert(own[k - done.len()] == x);
                }
            }
        }
    }
}

} // verus!
