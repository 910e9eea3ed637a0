//! Coverage: how much of the code is tied to its specification, and how much of the specification can be
//! read.
use vstd::prelude::*;
use crate::attributes;
use crate::attributes::{FunctionToVerify, LockedView};
use crate::formula_checks;
use crate::formula_checks::{formula_latex_parseable_for_verify, FormulaRegistryAnalysis};
use crate::json;
use crate::json::{as_text, figure, items, member, null, pretty_text, read, Fields, JsonForm};
use crate::orange_paper;
use crate::orange_paper::SpecParser;
use crate::output;
use crate::output::{FormulaVerifyJsonFlags, VerifiedRow};
use crate::patterns;
use crate::report;
use crate::report::{line_of_count, line_of_text, print_all, record_all, Printed, Recorded};
use crate::section_order;
use crate::section_order::is_section_before;
use crate::sorting;
use crate::sorting::{sort, Ranked};
use crate::spec_types::{FormulaSpec, FormulaView, SectionView};
use crate::text;
use crate::text::{cat, count_text, same};
use crate::verify::VerificationResult;

verus! {

// ---------------------------------------------------------------------------
// Witnesses in the results of a verification
// ---------------------------------------------------------------------------
/// How the functions that are anchored to formulas, or those anchored to constants, were verified.
#[derive(Clone, Copy, Debug, PartialEq, Eq, Structural)]
pub struct WitnessVerifyRollup {
    pub passed: usize,
    pub failed: usize,
    pub partial: usize,
    pub not_implemented: usize,
    pub total: usize,
}

impl Default for WitnessVerifyRollup {
    fn default() -> (r: WitnessVerifyRollup)
        ensures
            r@ == no_rows(),
    {
        WitnessVerifyRollup { passed: 0, failed: 0, partial: 0, not_implemented: 0, total: 0 }
    }
}

/// `WitnessVerifyRollup` as a mathematical value.
#[verifier::ext_equal]
pub struct RollupView {
    pub passed: nat,
    pub failed: nat,
    pub partial: nat,
    pub not_implemented: nat,
    pub total: nat,
}

impl View for WitnessVerifyRollup {
    type V = RollupView;

    open spec fn view(&self) -> RollupView {
        RollupView {
            passed: self.passed as nat,
            failed: self.failed as nat,
            partial: self.partial as nat,
            not_implemented: self.not_implemented as nat,
            total: self.total as nat,
        }
    }
}

/// A rollup that may be missing, as a mathematical value.
pub open spec fn rollup_view(r: Option<WitnessVerifyRollup>) -> Option<RollupView> {
    match r {
        Some(x) => Some(x@),
        None => None,
    }
}

/// A rollup of nothing.
pub open spec fn no_rows() -> RollupView {
    RollupView { passed: 0, failed: 0, partial: 0, not_implemented: 0, total: 0 }
}

/// What the functions of a rollup are anchored to.
#[derive(Clone, Copy, Debug, PartialEq, Eq, Structural)]
pub enum Witness {
    Formula,
    Constant,
}

/// What a row of the results says of a witness.
#[derive(Debug)]
pub struct WitnessRow {
    pub status: Option<String>,
    pub formula_anchor: Option<String>,
    pub constant_anchor: Option<String>,
}

/// `WitnessRow` as a mathematical value.
#[verifier::ext_equal]
pub struct WitnessView {
    pub status: Option<Seq<char>>,
    pub formula_anchor: Option<Seq<char>>,
    pub constant_anchor: Option<Seq<char>>,
}

impl View for WitnessRow {
    type V = WitnessView;

    open spec fn view(&self) -> WitnessView {
        WitnessView {
            status: patterns::group_view(self.status),
            formula_anchor: patterns::group_view(self.formula_anchor),
            constant_anchor: patterns::group_view(self.constant_anchor),
        }
    }
}

/// Rows as mathematical values.
pub open spec fn witness_views(v: Seq<WitnessRow>) -> Seq<WitnessView> {
    v.map_values(|r: WitnessRow| r@)
}

/// Whether a row belongs to a rollup: it names an anchor of that kind, and the name is not empty.
pub open spec fn is_witness(r: WitnessView, w: Witness) -> bool {
    match w {
        Witness::Formula => r.formula_anchor matches Some(s) && s.len() > 0,
        Witness::Constant => r.constant_anchor matches Some(s) && s.len() > 0,
    }
}

/// A rollup with one more row. A status that is missing or not known counts as a failure.
pub open spec fn bumped(r: RollupView, status: Option<Seq<char>>) -> RollupView {
    let r = RollupView { total: r.total + 1, ..r };
    if status == Some("passed"@) {
        RollupView { passed: r.passed + 1, ..r }
    } else if status == Some("partial"@) {
        RollupView { partial: r.partial + 1, ..r }
    } else if status == Some("not_implemented"@) {
        RollupView { not_implemented: r.not_implemented + 1, ..r }
    } else {
        RollupView { failed: r.failed + 1, ..r }
    }
}

/// The rollup of the first `n` rows.
pub open spec fn rolled(rows: Seq<WitnessView>, n: int, w: Witness) -> RollupView
    decreases n,
{
    if n <= 0 || n > rows.len() {
        no_rows()
    } else if is_witness(rows[n - 1], w) {
        bumped(rolled(rows, n - 1, w), rows[n - 1].status)
    } else {
        rolled(rows, n - 1, w)
    }
}

/// The rollup of all rows, where one belongs to it.
pub open spec fn rollup(rows: Seq<WitnessView>, w: Witness) -> Option<RollupView> {
    let r = rolled(rows, rows.len() as int, w);
    if r.total > 0 {
        Some(r)
    } else {
        None
    }
}

/// The numbers of a rollup add up to the number of its rows, which is not more than there are.
pub proof fn law_rollup_adds_up(rows: Seq<WitnessView>, n: int, w: Witness)
    requires
        0 <= n <= rows.len(),
    ensures
        ({
            let r = rolled(rows, n, w);
            r.passed + r.failed + r.partial + r.not_implemented == r.total && r.total <= n
        }),
    decreases n,
{
    if n > 0 {
        law_rollup_adds_up(rows, n - 1, w);
    }
}

fn has_text(s: &Option<String>) -> (r: bool)
    ensures
        r == (patterns::group_view(*s) matches Some(x) && x.len() > 0),
{
    match s {
        Some(x) => {
            proof {
                reveal_strlit("");
                assert(x@.len() == 0 ==> x@ =~= ""@);
            }
            !same(x.as_str(), "")
        },
        None => false,
    }
}

fn is_status(s: &Option<String>, name: &str) -> (r: bool)
    ensures
        r == (patterns::group_view(*s) == Some(name@)),
{
    match s {
        Some(x) => same(x.as_str(), name),
        None => false,
    }
}

fn bump(r: &mut WitnessVerifyRollup, status: &Option<String>)
    requires
        old(r).passed < usize::MAX,
        old(r).failed < usize::MAX,
        old(r).partial < usize::MAX,
        old(r).not_implemented < usize::MAX,
        old(r).total < usize::MAX,
    ensures
        final(r)@ == bumped(old(r)@, patterns::group_view(*status)),
{
    r.total = r.total + 1;
    if is_status(status, "passed") {
        r.passed = r.passed + 1;
    } else if is_status(status, "partial") {
        r.partial = r.partial + 1;
    } else if is_status(status, "not_implemented") {
        r.not_implemented = r.not_implemented + 1;
    } else {
        r.failed = r.failed + 1;
    }
}

/// The rollup of rows, where one belongs to it.
#[verifier::loop_isolation(false)]
pub fn roll_up(rows: &Vec<WitnessRow>, w: Witness) -> (r: Option<WitnessVerifyRollup>)
    ensures
        rollup_view(r) == rollup(witness_views(rows@), w),
{
    let ghost rv = witness_views(rows@);
    let mut r = WitnessVerifyRollup::default();
    let mut i: usize = 0;
    proof {
        assert(rv.len() == rows@.len());
    }
    while i < rows.len()
        invariant
            i <= rows@.len(),
            r@ == rolled(rv, i as int, w),
        decreases rows@.len() - i,
    {
        proof {
            assert(rv[i as int] == rows@[i as int]@);
            law_rollup_adds_up(rv, i as int, w);
            assert(r@.total <= i);
        }
        let row = &rows[i];
        let belongs = match w {
            Witness::Formula => has_text(&row.formula_anchor),
            Witness::Constant => has_text(&row.constant_anchor),
        };
        if belongs {
            bump(&mut r, &row.status);
        }
        i += 1;
    }
    if r.total > 0 {
        Some(r)
    } else {
        None
    }
}

/// What a row in JSON says of a witness.
pub open spec fn witness_of(row: JsonForm) -> WitnessView {
    WitnessView {
        status: json::text_in(json::member_of(row, "status"@)),
        formula_anchor: json::text_in(json::member_of(row, "formula_anchor"@)),
        constant_anchor: json::text_in(json::member_of(row, "constant_anchor"@)),
    }
}

/// What rows in JSON say of witnesses.
pub open spec fn witnesses_of(rows: Seq<JsonForm>) -> Seq<WitnessView> {
    rows.map_values(|j: JsonForm| witness_of(j))
}

/// The rows of results in JSON.
pub open spec fn result_rows(root: JsonForm) -> Option<Seq<JsonForm>> {
    match json::member_of(root, "results"@) {
        Some(JsonForm::List(v)) => Some(v),
        _ => None,
    }
}

/// The rollups of results in JSON.
pub open spec fn rollups_in(read: Result<JsonForm, Seq<char>>) -> Result<
    (Option<RollupView>, Option<RollupView>),
    Seq<char>,
> {
    match read {
        Err(e) => Err("verify rollup JSON: "@ + e),
        Ok(root) => match result_rows(root) {
            None => Err("verify rollup JSON: missing `.results` array"@),
            Some(rows) => {
                let w = witnesses_of(rows);
                Ok((rollup(w, Witness::Formula), rollup(w, Witness::Constant)))
            },
        },
    }
}

/// The rollups of results, or what is wrong, as a mathematical value.
pub open spec fn rollups_view(
    r: Result<(Option<WitnessVerifyRollup>, Option<WitnessVerifyRollup>), String>,
) -> Result<(Option<RollupView>, Option<RollupView>), Seq<char>> {
    match r {
        Ok(p) => Ok((rollup_view(p.0), rollup_view(p.1))),
        Err(e) => Err(e@),
    }
}

fn text_member(row: &serde_json::Value, key: &str) -> (r: Option<String>)
    ensures
        patterns::group_view(r) == json::text_in(json::member_of(json::json_content(*row), key@)),
{
    match member(row, key) {
        Some(v) => match as_text(v) {
            Some(s) => Some(s.to_owned()),
            None => None,
        },
        None => None,
    }
}

fn read_rows(rows: &Vec<serde_json::Value>) -> (r: Vec<WitnessRow>)
    ensures
        witness_views(r@) == witnesses_of(json::contents(rows@)),
{
    let mut out: Vec<WitnessRow> = Vec::new();
    let mut i: usize = 0;
    while i < rows.len()
        invariant
            i <= rows@.len(),
            out@.len() == i,
            forall|k: int|
                0 <= k < i ==> (#[trigger] out@[k])@ == witness_of(json::json_content(rows@[k])),
        decreases rows@.len() - i,
    {
        out.push(
            WitnessRow {
                status: text_member(&rows[i], "status"),
                formula_anchor: text_member(&rows[i], "formula_anchor"),
                constant_anchor: text_member(&rows[i], "constant_anchor"),
            },
        );
        i += 1;
    }
    proof {
        assert(witness_views(out@) =~= witnesses_of(json::contents(rows@)));
    }
    out
}

/// The rollups of the results of a verification in JSON: of the functions that are anchored to
/// formulas, and of those anchored to constants.
pub fn parse_verify_json_witness_rollups(json_text: &str) -> (r: Result<
    (Option<WitnessVerifyRollup>, Option<WitnessVerifyRollup>),
    String,
>)
    ensures
        rollups_view(r) == rollups_in(json::json_read(json_text@)),
{
    let root = match read(json_text) {
        Ok(v) => v,
        Err(e) => {
            return Err(cat("verify rollup JSON: ", e.as_str()));
        },
    };
    let rows = match member(&root, "results") {
        Some(v) => items(v),
        None => None,
    };
    match rows {
        Some(v) => {
            let w = read_rows(v);
            Ok((roll_up(&w, Witness::Formula), roll_up(&w, Witness::Constant)))
        },
        None => Err("verify rollup JSON: missing `.results` array".to_owned()),
    }
}

/// The status of a result in a report.
pub open spec fn status_name(r: VerificationResult) -> Seq<char> {
    match r {
        VerificationResult::Passed { .. } => "passed"@,
        VerificationResult::Failed { .. } => "failed"@,
        VerificationResult::Partial { .. } => "partial"@,
        VerificationResult::NoContracts { .. } => "failed"@,
        VerificationResult::NotImplemented => "not_implemented"@,
    }
}

/// What a verified function says of a witness.
pub open spec fn witness_in(r: VerifiedRow) -> WitnessView {
    WitnessView {
        status: Some(status_name(r.1)),
        formula_anchor: patterns::group_view(r.0.formula_anchor),
        constant_anchor: patterns::group_view(r.0.constant_anchor),
    }
}

proof fn lemma_witness_of_record(r: VerifiedRow)
    ensures
        witness_of(Recorded::<output::JsonReport>::recorded(r)) == witness_in(r),
{
    reveal_strlit("file");
    reveal_strlit("function");
    reveal_strlit("section");
    reveal_strlit("anchor_kind");
    reveal_strlit("formula_anchor");
    reveal_strlit("constant_anchor");
    reveal_strlit("status");
    reveal_strlit("contract");
    reveal_strlit("reason");
    reveal_strlit("detail");
    reveal_strlit("verified");
    reveal_strlit("total");
    let status = "status"@;
    let formula = "formula_anchor"@;
    let constant = "constant_anchor"@;
    assert(status[0] == 's' && status[1] == 't');
    assert("section"@[1] == 'e');
    assert(formula.len() == 14 && constant.len() == 15 && status.len() == 6);
    assert("reason"@[0] == 'r' && "detail"@[0] == 'd');
}

/// The rollups that are read from a report on a verification are those of the functions that were
/// verified.
pub proof fn law_rollups_of_report(
    v: Seq<VerifiedRow>,
    formulas: Option<(&FormulaRegistryAnalysis, FormulaVerifyJsonFlags)>,
)
    ensures
        rollups_in(Ok(output::verify_json(v, formulas))) == Ok::<
            (Option<RollupView>, Option<RollupView>),
            Seq<char>,
        >(
            (
                rollup(v.map_values(|r: VerifiedRow| witness_in(r)), Witness::Formula),
                rollup(v.map_values(|r: VerifiedRow| witness_in(r)), Witness::Constant),
            ),
        ),
{
    reveal_strlit("results");
    reveal_strlit("formula_registry");
    let root = output::verify_json(v, formulas);
    let rows = v.map_values(|x: VerifiedRow| Recorded::<output::JsonReport>::recorded(x));
    assert("results"@.len() == 7 && "formula_registry"@.len() == 16);
    assert(result_rows(root) == Some(rows));
    assert forall|i: int| 0 <= i < v.len() implies witnesses_of(rows)[i] == #[trigger] witness_in(v[i])
    by {
        lemma_witness_of_record(v[i]);
    }
    assert(witnesses_of(rows) =~= v.map_values(|r: VerifiedRow| witness_in(r)));
}

// ---------------------------------------------------------------------------
// The code
// ---------------------------------------------------------------------------
/// The functions that name a section.
#[derive(Debug)]
pub struct SectionFunctions {
    pub section: String,
    pub functions: Vec<FunctionToVerify>,
}

/// `SectionFunctions` as a mathematical value.
#[verifier::ext_equal]
pub struct GroupView {
    pub section: Seq<char>,
    pub functions: Seq<LockedView>,
}

impl View for SectionFunctions {
    type V = GroupView;

    open spec fn view(&self) -> GroupView {
        GroupView {
            section: self.section@,
            functions: attributes::locked_views(self.functions@),
        }
    }
}

/// Groups as mathematical values.
pub open spec fn group_views(v: Seq<SectionFunctions>) -> Seq<GroupView> {
    v.map_values(|g: SectionFunctions| g@)
}

/// How much of the code is tied to its specification.
#[derive(Debug)]
pub struct CoverageStats {
    pub total_spec_locked: usize,
    /// The functions by the sections that they name, each section once.
    pub by_section: Vec<SectionFunctions>,
    /// The functions that name no section.
    pub without_section: Vec<FunctionToVerify>,
    pub with_contracts: usize,
    pub without_contracts: usize,
    /// Formulas in the specification.
    pub formulas_defined: usize,
    /// Functions that are anchored to formulas.
    pub formulas_bound_to_rust: usize,
    /// Formulas that can be read.
    pub formulas_parseable_body: usize,
    /// Anchors to formulas that can be read.
    pub formula_anchor_parse_gate_ok: usize,
    /// Anchors to formulas that are not there.
    pub formula_anchor_spec_missing_id: usize,
    /// Anchors to formulas that cannot be read.
    pub formula_anchor_unparseable_body: usize,
    /// Constants in the specification.
    pub constants_defined: usize,
    /// Functions that are anchored to constants.
    pub constants_bound_to_rust: usize,
    pub formulas_verify_rollup: Option<WitnessVerifyRollup>,
    pub constants_verify_rollup: Option<WitnessVerifyRollup>,
}

/// What the specification holds of what functions are anchored to.
#[verifier::ext_equal]
pub struct RegistryView {
    pub formulas_defined: nat,
    pub formulas_parseable_body: nat,
    pub formula_anchor_parse_gate_ok: nat,
    pub formula_anchor_spec_missing_id: nat,
    pub formula_anchor_unparseable_body: nat,
    pub constants_defined: nat,
}

/// `CoverageStats` as a mathematical value.
#[verifier::ext_equal]
pub struct CoverageView {
    pub total_spec_locked: nat,
    pub by_section: Seq<GroupView>,
    pub without_section: Seq<LockedView>,
    pub with_contracts: nat,
    pub without_contracts: nat,
    pub registry: RegistryView,
    pub formulas_bound_to_rust: nat,
    pub constants_bound_to_rust: nat,
    pub formulas_verify_rollup: Option<RollupView>,
    pub constants_verify_rollup: Option<RollupView>,
}

impl View for CoverageStats {
    type V = CoverageView;

    open spec fn view(&self) -> CoverageView {
        CoverageView {
            total_spec_locked: self.total_spec_locked as nat,
            by_section: group_views(self.by_section@),
            without_section: attributes::locked_views(self.without_section@),
            with_contracts: self.with_contracts as nat,
            without_contracts: self.without_contracts as nat,
            registry: RegistryView {
                formulas_defined: self.formulas_defined as nat,
                formulas_parseable_body: self.formulas_parseable_body as nat,
                formula_anchor_parse_gate_ok: self.formula_anchor_parse_gate_ok as nat,
                formula_anchor_spec_missing_id: self.formula_anchor_spec_missing_id as nat,
                formula_anchor_unparseable_body: self.formula_anchor_unparseable_body as nat,
                constants_defined: self.constants_defined as nat,
            },
            formulas_bound_to_rust: self.formulas_bound_to_rust as nat,
            constants_bound_to_rust: self.constants_bound_to_rust as nat,
            formulas_verify_rollup: rollup_view(self.formulas_verify_rollup),
            constants_verify_rollup: rollup_view(self.constants_verify_rollup),
        }
    }
}

/// Where the group of a section stands, from `i` on.
pub open spec fn group_place(gs: Seq<GroupView>, section: Seq<char>, i: int) -> Option<int>
    decreases gs.len() - i,
{
    if i < 0 || i >= gs.len() {
        None
    } else if gs[i].section == section {
        Some(i)
    } else {
        group_place(gs, section, i + 1)
    }
}

/// Groups with one more function.
pub open spec fn with_function(gs: Seq<GroupView>, section: Seq<char>, f: LockedView) -> Seq<
    GroupView,
> {
    match group_place(gs, section, 0) {
        Some(p) => gs.update(
            p,
            GroupView { section: gs[p].section, functions: gs[p].functions.push(f) },
        ),
        None => gs.push(GroupView { section, functions: seq![f] }),
    }
}

/// The first `n` functions by the sections that they name, in the order in which the sections first
/// occur.
pub open spec fn grouped(fs: Seq<LockedView>, n: int) -> Seq<GroupView>
    decreases n,
{
    if n <= 0 || n > fs.len() {
        seq![]
    } else {
        match fs[n - 1].section {
            Some(s) => with_function(grouped(fs, n - 1), s, fs[n - 1]),
            None => grouped(fs, n - 1),
        }
    }
}

/// The functions among the first `n` that name no section.
pub open spec fn ungrouped(fs: Seq<LockedView>, n: int) -> Seq<LockedView>
    decreases n,
{
    if n <= 0 || n > fs.len() {
        seq![]
    } else if fs[n - 1].section is None {
        ungrouped(fs, n - 1).push(fs[n - 1])
    } else {
        ungrouped(fs, n - 1)
    }
}

/// The functions among the first `n` that name a section.
pub open spec fn of_section(fs: Seq<LockedView>, n: int, section: Seq<char>) -> Seq<LockedView>
    decreases n,
{
    if n <= 0 || n > fs.len() {
        seq![]
    } else if fs[n - 1].section == Some(section) {
        of_section(fs, n - 1, section).push(fs[n - 1])
    } else {
        of_section(fs, n - 1, section)
    }
}

/// How many of the first `n` functions have contracts.
pub open spec fn with_contracts(fs: Seq<LockedView>, n: int) -> nat
    decreases n,
{
    if n <= 0 || n > fs.len() {
        0
    } else if fs[n - 1].contracts.len() > 0 {
        with_contracts(fs, n - 1) + 1
    } else {
        with_contracts(fs, n - 1)
    }
}

/// How many of the first `n` functions are anchored to formulas.
pub open spec fn formula_anchors(fs: Seq<LockedView>, n: int) -> nat
    decreases n,
{
    if n <= 0 || n > fs.len() {
        0
    } else if fs[n - 1].formula_anchor is Some {
        formula_anchors(fs, n - 1) + 1
    } else {
        formula_anchors(fs, n - 1)
    }
}

/// How many of the first `n` functions are anchored to constants.
pub open spec fn constant_anchors(fs: Seq<LockedView>, n: int) -> nat
    decreases n,
{
    if n <= 0 || n > fs.len() {
        0
    } else if fs[n - 1].constant_anchor is Some {
        constant_anchors(fs, n - 1) + 1
    } else {
        constant_anchors(fs, n - 1)
    }
}

/// What becomes of an anchor to a formula.
#[derive(Clone, Copy, Debug, PartialEq, Eq, Structural)]
pub enum AnchorState {
    /// The formula is there and can be read.
    Readable,
    /// The formula is not there.
    Missing,
    /// The formula cannot be read.
    Unreadable,
}

/// What becomes of an anchor to a formula.
#[verifier::opaque]
pub open spec fn anchor_state(v: Seq<SectionView>, id: Seq<char>) -> AnchorState {
    match orange_paper::stable_formula(v, id) {
        None => AnchorState::Missing,
        Some(f) => if formula_checks::passes(f.latex_body) {
            AnchorState::Readable
        } else {
            AnchorState::Unreadable
        },
    }
}

/// How many of the first `n` functions have an anchor to a formula that comes to `k`.
pub open spec fn anchors_in_state(
    fs: Seq<LockedView>,
    n: int,
    v: Seq<SectionView>,
    k: AnchorState,
) -> nat
    decreases n,
{
    if n <= 0 || n > fs.len() {
        0
    } else {
        match fs[n - 1].formula_anchor {
            Some(id) if anchor_state(v, id) == k => anchors_in_state(fs, n - 1, v, k) + 1,
            _ => anchors_in_state(fs, n - 1, v, k),
        }
    }
}

/// How many of the first `n` formulas can be read.
pub open spec fn readable_formulas(fs: Seq<FormulaView>, n: int) -> nat
    decreases n,
{
    if n <= 0 || n > fs.len() {
        0
    } else if formula_checks::passes(fs[n - 1].latex_body) {
        readable_formulas(fs, n - 1) + 1
    } else {
        readable_formulas(fs, n - 1)
    }
}

/// The constants of a specification, by number. Where a name occurs twice, none counts.
pub open spec fn constants_counted(v: Seq<SectionView>) -> nat {
    let cs = orange_paper::constants_in(v, v.len() as int);
    if orange_paper::repetition_from(cs, 0) is None {
        cs.len()
    } else {
        0
    }
}

/// What the specification holds of what functions are anchored to. Without a specification nothing
/// counts.
pub open spec fn registry(v: Option<Seq<SectionView>>, fs: Seq<LockedView>) -> RegistryView {
    match v {
        None => RegistryView {
            formulas_defined: 0,
            formulas_parseable_body: 0,
            formula_anchor_parse_gate_ok: 0,
            formula_anchor_spec_missing_id: 0,
            formula_anchor_unparseable_body: 0,
            constants_defined: 0,
        },
        Some(s) => {
            let all = orange_paper::formulas_in(s, s.len() as int);
            let n = fs.len() as int;
            RegistryView {
                formulas_defined: all.len(),
                formulas_parseable_body: readable_formulas(all, all.len() as int),
                formula_anchor_parse_gate_ok: anchors_in_state(fs, n, s, AnchorState::Readable),
                formula_anchor_spec_missing_id: anchors_in_state(fs, n, s, AnchorState::Missing),
                formula_anchor_unparseable_body: anchors_in_state(
                    fs,
                    n,
                    s,
                    AnchorState::Unreadable,
                ),
                constants_defined: constants_counted(s),
            }
        },
    }
}

/// How much of the code is tied to its specification.
pub open spec fn coverage(
    fs: Seq<LockedView>,
    v: Option<Seq<SectionView>>,
    rollups: (Option<RollupView>, Option<RollupView>),
) -> CoverageView {
    let n = fs.len() as int;
    CoverageView {
        total_spec_locked: fs.len(),
        by_section: grouped(fs, n),
        without_section: ungrouped(fs, n),
        with_contracts: with_contracts(fs, n),
        without_contracts: (n - with_contracts(fs, n)) as nat,
        registry: registry(v, fs),
        formulas_bound_to_rust: formula_anchors(fs, n),
        constants_bound_to_rust: constant_anchors(fs, n),
        formulas_verify_rollup: rollups.0,
        constants_verify_rollup: rollups.1,
    }
}

/// The sections of a specification, where there is one.
pub open spec fn sections_of(parser: Option<&SpecParser>) -> Option<Seq<SectionView>> {
    match parser {
        Some(p) => Some(p.read()),
        None => None,
    }
}

fn find_group(gs: &Vec<SectionFunctions>, section: &str) -> (r: Option<usize>)
    ensures
        match r {
            Some(p) => group_place(group_views(gs@), section@, 0) == Some(p as int) && p < gs@.len(),
            None => group_place(group_views(gs@), section@, 0) is None,
        },
{
    let ghost gv = group_views(gs@);
    let mut i: usize = 0;
    while i < gs.len()
        invariant
            i <= gs@.len(),
            gv == group_views(gs@),
            group_place(gv, section@, 0) == group_place(gv, section@, i as int),
        decreases gs@.len() - i,
    {
        proof {
            assert(gv[i as int] == gs@[i as int]@);
            assert(gv.len() == gs@.len());
        }
        if same(gs[i].section.as_str(), section) {
            return Some(i);
        }
        i += 1;
    }
    proof {
        assert(gv.len() == gs@.len());
    }
    None
}

fn add_to_group(gs: &mut Vec<SectionFunctions>, section: String, f: FunctionToVerify)
    ensures
        group_views(final(gs)@) == with_function(group_views(old(gs)@), section@, f@),
{
    let ghost gv = group_views(gs@);
    let ghost was = gs@;
    match find_group(gs, section.as_str()) {
        Some(p) => {
            let ghost g = gs@[p as int];
            gs[p].functions.push(f);
            proof {
                assert(gs@[p as int].functions@ == g.functions@.push(f));
                assert(attributes::locked_views(g.functions@.push(f)) =~= attributes::locked_views(
                    g.functions@,
                ).push(f@));
                assert(gv[p as int] == g@);
                assert(group_views(gs@) =~= with_function(gv, section@, f@));
            }
        },
        None => {
            let mut one: Vec<FunctionToVerify> = Vec::new();
            one.push(f);
            let g = SectionFunctions { section, functions: one };
            proof {
                assert(attributes::locked_views(one@) =~= seq![f@]);
            }
            gs.push(g);
            proof {
                assert(group_views(gs@) =~= gv.push(g@));
            }
        },
    }
}

fn count_with_contracts(fs: &Vec<FunctionToVerify>) -> (r: usize)
    ensures
        r == with_contracts(attributes::locked_views(fs@), fs@.len() as int),
        r <= fs@.len(),
{
    let ghost fv = attributes::locked_views(fs@);
    let mut r: usize = 0;
    let mut i: usize = 0;
    while i < fs.len()
        invariant
            r <= i <= fs@.len(),
            fv == attributes::locked_views(fs@),
            r == with_contracts(fv, i as int),
        decreases fs@.len() - i,
    {
        proof {
            assert(fv[i as int] == fs@[i as int]@);
            assert(fv.len() == fs@.len());
            assert(fv[i as int].contracts.len() == fs@[i as int].contracts@.len());
        }
        if fs[i].contracts.len() > 0 {
            r += 1;
        }
        i += 1;
    }
    r
}

fn count_anchors(fs: &Vec<FunctionToVerify>) -> (r: (usize, usize))
    ensures
        r.0 == formula_anchors(attributes::locked_views(fs@), fs@.len() as int),
        r.1 == constant_anchors(attributes::locked_views(fs@), fs@.len() as int),
{
    let ghost fv = attributes::locked_views(fs@);
    let mut a: usize = 0;
    let mut b: usize = 0;
    let mut i: usize = 0;
    while i < fs.len()
        invariant
            a <= i <= fs@.len(),
            b <= i,
            fv == attributes::locked_views(fs@),
            a == formula_anchors(fv, i as int),
            b == constant_anchors(fv, i as int),
        decreases fs@.len() - i,
    {
        proof {
            assert(fv[i as int] == fs@[i as int]@);
            assert(fv.len() == fs@.len());
        }
        if fs[i].formula_anchor.is_some() {
            a += 1;
        }
        if fs[i].constant_anchor.is_some() {
            b += 1;
        }
        i += 1;
    }
    (a, b)
}

fn count_readable(fs: &Vec<&FormulaSpec>) -> (r: usize)
    ensures
        r == readable_formulas(orange_paper::formula_refs(fs@), fs@.len() as int),
{
    let ghost fv = orange_paper::formula_refs(fs@);
    let mut r: usize = 0;
    let mut i: usize = 0;
    while i < fs.len()
        invariant
            r <= i <= fs@.len(),
            fv == orange_paper::formula_refs(fs@),
            r == readable_formulas(fv, i as int),
        decreases fs@.len() - i,
    {
        proof {
            assert(fv[i as int] == fs@[i as int]@);
            assert(fv.len() == fs@.len());
        }
        if formula_latex_parseable_for_verify(fs[i].latex_body.as_str()) {
            r += 1;
        }
        i += 1;
    }
    r
}

fn state_of_anchor(parser: &SpecParser, id: &str) -> (r: AnchorState)
    ensures
        r == anchor_state(parser.read(), id@),
{
    proof {
        reveal(anchor_state);
    }
    match parser.stable_formula(id) {
        None => AnchorState::Missing,
        Some(f) => if formula_latex_parseable_for_verify(f.latex_body.as_str()) {
            AnchorState::Readable
        } else {
            AnchorState::Unreadable
        },
    }
}

#[verifier::loop_isolation(false)]
fn count_states(p: &SpecParser, functions: &Vec<FunctionToVerify>) -> (r: (usize, usize, usize))
    ensures
        ({
            let v = p.read();
            let fv = attributes::locked_views(functions@);
            let n = functions@.len() as int;
            &&& r.0 == anchors_in_state(fv, n, v, AnchorState::Readable)
            &&& r.1 == anchors_in_state(fv, n, v, AnchorState::Missing)
            &&& r.2 == anchors_in_state(fv, n, v, AnchorState::Unreadable)
        }),
{
    let ghost v = p.read();
    let ghost fv = attributes::locked_views(functions@);
    let mut ok: usize = 0;
    let mut missing: usize = 0;
    let mut unreadable: usize = 0;
    let mut i: usize = 0;
    proof {
        assert(fv.len() == functions@.len());
    }
    while i < functions.len()
        invariant
            i <= functions@.len(),
            ok <= i,
            missing <= i,
            unreadable <= i,
            ok == anchors_in_state(fv, i as int, v, AnchorState::Readable),
            missing == anchors_in_state(fv, i as int, v, AnchorState::Missing),
            unreadable == anchors_in_state(fv, i as int, v, AnchorState::Unreadable),
        decreases functions@.len() - i,
    {
        proof {
            assert(fv[i as int] == functions@[i as int]@);
        }
        if let Some(id) = &functions[i].formula_anchor {
            match state_of_anchor(p, id.as_str()) {
                AnchorState::Readable => {
                    ok += 1;
                },
                AnchorState::Missing => {
                    missing += 1;
                },
                AnchorState::Unreadable => {
                    unreadable += 1;
                },
            }
        }
        i += 1;
    }
    (ok, missing, unreadable)
}

/// What the specification holds of what functions are anchored to: how many formulas there are and how
/// many of them can be read; how many anchors are to formulas that can be read, that are not there and
/// that cannot be read; and how many constants there are.
pub fn formula_and_constant_registry_metrics(
    parser: Option<&SpecParser>,
    functions: &Vec<FunctionToVerify>,
) -> (r: (usize, usize, usize, usize, usize, usize))
    ensures
        (RegistryView {
            formulas_defined: r.0 as nat,
            formulas_parseable_body: r.1 as nat,
            formula_anchor_parse_gate_ok: r.2 as nat,
            formula_anchor_spec_missing_id: r.3 as nat,
            formula_anchor_unparseable_body: r.4 as nat,
            constants_defined: r.5 as nat,
        }) == registry(sections_of(parser), attributes::locked_views(functions@)),
{
    let p = match parser {
        Some(p) => p,
        None => {
            return (0, 0, 0, 0, 0, 0);
        },
    };
    let constants = match p.constants_stable_id_map() {
        Ok(c) => {
            proof {
                assert(orange_paper::constant_refs(c@).len() == c@.len());
            }
            c.len()
        },
        Err(_) => 0,
    };
    let all = p.formulas();
    let readable = count_readable(&all);
    proof {
        assert(orange_paper::formula_refs(all@).len() == all@.len());
    }
    let states = count_states(p, functions);
    (all.len(), readable, states.0, states.1, states.2, constants)
}

/// How much of the code is tied to its specification, by functions with what the specification adds to
/// them and by rollups of the results of a verification.
#[verifier::loop_isolation(false)]
pub fn coverage_of(
    functions: Vec<FunctionToVerify>,
    parser: Option<&SpecParser>,
    rollups: (Option<WitnessVerifyRollup>, Option<WitnessVerifyRollup>),
) -> (r: CoverageStats)
    ensures
        r@ == coverage(
            attributes::locked_views(functions@),
            sections_of(parser),
            (rollup_view(rollups.0), rollup_view(rollups.1)),
        ),
{
    let ghost all = functions@;
    let ghost fv = attributes::locked_views(all);
    let total: usize = functions.len();
    let with = count_with_contracts(&functions);
    let anchors = count_anchors(&functions);
    let m = formula_and_constant_registry_metrics(parser, &functions);
    let mut rest = functions;
    let mut by_section: Vec<SectionFunctions> = Vec::new();
    let mut without_section: Vec<FunctionToVerify> = Vec::new();
    let ghost mut i: int = 0;
    proof {
        assert(all.skip(0) =~= all);
        assert(group_views(by_section@) =~= seq![]);
        assert(attributes::locked_views(without_section@) =~= seq![]);
        assert(fv.len() == all.len());
    }
    while rest.len() > 0
        invariant
            0 <= i <= all.len(),
            rest@ == all.skip(i),
            group_views(by_section@) == grouped(fv, i),
            attributes::locked_views(without_section@) == ungrouped(fv, i),
        decreases rest@.len(),
    {
        let ghost had = without_section@;
        let f = rest.remove(0);
        proof {
            assert(f == all[i]);
            assert(fv[i] == f@);
            assert(rest@ =~= all.skip(i + 1));
        }
        let section = match &f.section {
            Some(s) => Some(s.as_str().to_owned()),
            None => None,
        };
        match section {
            Some(s) => {
                add_to_group(&mut by_section, s, f);
            },
            None => {
                without_section.push(f);
                proof {
                    assert(attributes::locked_views(without_section@) =~= attributes::locked_views(
                        had,
                    ).push(f@));
                }
            },
        }
        proof {
            i = i + 1;
        }
    }
    CoverageStats {
        total_spec_locked: total,
        by_section,
        without_section,
        with_contracts: with,
        without_contracts: total - with,
        formulas_defined: m.0,
        formulas_bound_to_rust: anchors.0,
        formulas_parseable_body: m.1,
        formula_anchor_parse_gate_ok: m.2,
        formula_anchor_spec_missing_id: m.3,
        formula_anchor_unparseable_body: m.4,
        constants_defined: m.5,
        constants_bound_to_rust: anchors.1,
        formulas_verify_rollup: rollups.0,
        constants_verify_rollup: rollups.1,
    }
}

/// How much of the code is tied to its specification, by functions with what the specification adds to
/// them and, where it is there, by the results of a verification in JSON.
pub fn generate_coverage(
    functions: Vec<FunctionToVerify>,
    parser: Option<&SpecParser>,
    verify_json: Option<&str>,
) -> (r: Result<CoverageStats, String>)
    ensures
        ({
            let rolled = match verify_json {
                Some(s) => rollups_in(json::json_read(s@)),
                None => Ok((None, None)),
            };
            match r {
                Ok(c) => rolled matches Ok(p) && c@ == coverage(
                    attributes::locked_views(functions@),
                    sections_of(parser),
                    p,
                ),
                Err(e) => rolled == Err::<(Option<RollupView>, Option<RollupView>), Seq<char>>(e@),
            }
        }),
{
    let rollups = match verify_json {
        Some(s) => match parse_verify_json_witness_rollups(s) {
            Ok(p) => p,
            Err(e) => {
                return Err(e);
            },
        },
        None => (None, None),
    };
    Ok(coverage_of(functions, parser, rollups))
}

// ---------------------------------------------------------------------------
// Laws
// ---------------------------------------------------------------------------
/// Whether the groups have different sections.
pub open spec fn distinct_groups(gs: Seq<GroupView>) -> bool {
    forall|i: int, j: int|
        0 <= i < j < gs.len() ==> (#[trigger] gs[i]).section != (#[trigger] gs[j]).section
}

proof fn lemma_group_place(gs: Seq<GroupView>, section: Seq<char>, i: int)
    requires
        0 <= i <= gs.len(),
    ensures
        match group_place(gs, section, i) {
            Some(p) => i <= p < gs.len() && gs[p].section == section,
            None => forall|k: int| i <= k < gs.len() ==> (#[trigger] gs[k]).section != section,
        },
    decreases gs.len() - i,
{
    if i < gs.len() && gs[i].section != section {
        lemma_group_place(gs, section, i + 1);
    }
}

proof fn lemma_other_section(fs: Seq<LockedView>, n: int, section: Seq<char>)
    requires
        0 < n <= fs.len(),
        fs[n - 1].section != Some(section),
    ensures
        of_section(fs, n, section) == of_section(fs, n - 1, section),
{
}

/// Each section that a function names has one group, which holds just the functions that name it, in
/// their order.
pub proof fn law_groups_hold_their_functions(fs: Seq<LockedView>, n: int)
    requires
        0 <= n <= fs.len(),
    ensures
        distinct_groups(grouped(fs, n)),
        forall|i: int|
            0 <= i < grouped(fs, n).len() ==> (#[trigger] grouped(fs, n)[i]).functions
                == of_section(fs, n, grouped(fs, n)[i].section),
        forall|k: int|
            0 <= k < n && (#[trigger] fs[k]).section is Some ==> exists|i: int|
                0 <= i < grouped(fs, n).len() && (#[trigger] grouped(fs, n)[i]).section
                    == fs[k].section->0,
    decreases n,
{
    if n > 0 {
        law_groups_hold_their_functions(fs, n - 1);
        let was = grouped(fs, n - 1);
        let now = grouped(fs, n);
        let f = fs[n - 1];
        match f.section {
            None => {
                assert forall|i: int| 0 <= i < now.len() implies (#[trigger] now[i]).functions
                    == of_section(fs, n, now[i].section) by {
                    lemma_other_section(fs, n, now[i].section);
                }
            },
            Some(s) => {
                lemma_group_place(was, s, 0);
                match group_place(was, s, 0) {
                    Some(p) => {
                        assert forall|i: int| 0 <= i < now.len() implies (#[trigger] now[i]).section
                            == was[i].section by {}
                        assert(distinct_groups(now)) by {
                            assert forall|i: int, j: int| 0 <= i < j < now.len() implies (
                            #[trigger] now[i]).section != (#[trigger] now[j]).section by {
                                assert(was[i].section != was[j].section);
                            }
                        }
                        assert forall|i: int| 0 <= i < now.len() implies (
                        #[trigger] now[i]).functions == of_section(fs, n, now[i].section) by {
                            if i == p {
                                assert(was[p].functions == of_section(fs, n - 1, s));
                            } else {
                                assert(was[i].section != was[p].section) by {
                                    if i < p {
                                        assert(was[i].section != was[p].section);
                                    } else {
                                        assert(was[p].section != was[i].section);
                                    }
                                }
                                lemma_other_section(fs, n, now[i].section);
                            }
                        }
                        assert(now[p].section == s);
                    },
                    None => {
                        lemma_no_function(fs, n - 1, s);
                        assert forall|i: int| 0 <= i < now.len() implies (
                        #[trigger] now[i]).functions == of_section(fs, n, now[i].section) by {
                            if i == was.len() {
                                assert(of_section(fs, n, s) =~= seq![f]);
                            } else {
                                assert(now[i] == was[i]);
                                lemma_other_section(fs, n, now[i].section);
                            }
                        }
                        assert(now[was.len() as int].section == s);
                        assert(distinct_groups(now));
                    },
                }
            },
        }
        assert forall|k: int| 0 <= k < n && (#[trigger] fs[k]).section is Some implies exists|i: int|
            0 <= i < now.len() && (#[trigger] now[i]).section == fs[k].section->0 by {
            if k < n - 1 {
                let i = choose|i: int|
                    0 <= i < was.len() && (#[trigger] was[i]).section == fs[k].section->0;
                assert(now[i].section == was[i].section);
            }
        }
    }
}

proof fn lemma_no_function(fs: Seq<LockedView>, n: int, section: Seq<char>)
    requires
        0 <= n <= fs.len(),
        forall|i: int|
            0 <= i < grouped(fs, n).len() ==> (#[trigger] grouped(fs, n)[i]).section != section,
    ensures
        of_section(fs, n, section) == Seq::<LockedView>::empty(),
    decreases n,
{
    if n > 0 {
        let was = grouped(fs, n - 1);
        let now = grouped(fs, n);
        match fs[n - 1].section {
            None => {},
            Some(s) => {
                lemma_group_place(was, s, 0);
                match group_place(was, s, 0) {
                    Some(p) => {
                        assert(now[p].section == s);
                        assert forall|i: int| 0 <= i < was.len() implies (
                        #[trigger] was[i]).section != section by {
                            assert(now[i].section == was[i].section);
                        }
                    },
                    None => {
                        assert(now[was.len() as int].section == s);
                        assert forall|i: int| 0 <= i < was.len() implies (
                        #[trigger] was[i]).section != section by {
                            assert(now[i] == was[i]);
                        }
                    },
                }
            },
        }
        lemma_no_function(fs, n - 1, section);
    }
}

/// Every anchor to a formula is counted once: as one to a formula that can be read, to one that is not
/// there or to one that cannot be read.
pub proof fn law_anchors_add_up(fs: Seq<LockedView>, n: int, v: Seq<SectionView>)
    requires
        0 <= n <= fs.len(),
    ensures
        anchors_in_state(fs, n, v, AnchorState::Readable) + anchors_in_state(
            fs,
            n,
            v,
            AnchorState::Missing,
        ) + anchors_in_state(fs, n, v, AnchorState::Unreadable) == formula_anchors(fs, n),
    decreases n,
{
    if n > 0 {
        law_anchors_add_up(fs, n - 1, v);
    }
}

// ---------------------------------------------------------------------------
// Reports
// ---------------------------------------------------------------------------
/// A rollup as a JSON value.
pub open spec fn rollup_json(o: Option<WitnessVerifyRollup>) -> JsonForm {
    match o {
        None => JsonForm::Null,
        Some(r) => JsonForm::Object(
            map![
                "passed"@ => json::number(r.passed as nat),
                "failed"@ => json::number(r.failed as nat),
                "partial"@ => json::number(r.partial as nat),
                "not_implemented"@ => json::number(r.not_implemented as nat),
                "total"@ => json::number(r.total as nat),
            ],
        ),
    }
}

/// A rollup as a JSON value.
pub fn witness_rollup_to_json(o: &Option<WitnessVerifyRollup>) -> (v: serde_json::Value)
    ensures
        json::json_content(v) == rollup_json(*o),
{
    match o {
        None => null(),
        Some(r) => {
            let mut f = Fields::new();
            f.put_count("passed", r.passed);
            f.put_count("failed", r.failed);
            f.put_count("partial", r.partial);
            f.put_count("not_implemented", r.not_implemented);
            f.put_count("total", r.total);
            f.close()
        },
    }
}

/// A rollup in the report for a reader.
pub open spec fn rollup_words(which: Seq<char>, o: Option<WitnessVerifyRollup>) -> Seq<char> {
    match o {
        None => ""@,
        Some(r) => which + " (**`cargo spec-lock verify`** JSON rollup): "@ + text::decimal(
            r.passed as nat,
        ) + " passed / "@ + text::decimal(r.total as nat) + " total (partial "@ + text::decimal(
            r.partial as nat,
        ) + ", failed "@ + text::decimal(r.failed as nat) + ", not_implemented "@ + text::decimal(
            r.not_implemented as nat,
        ) + ")\n"@,
    }
}

/// A rollup in the report for a reader.
pub fn witness_rollup_human_blurb(which: &str, o: &Option<WitnessVerifyRollup>) -> (s: String)
    ensures
        s@ == rollup_words(which@, *o),
{
    match o {
        None => "".to_owned(),
        Some(r) => {
            let mut s = which.to_owned();
            s.append(" (**`cargo spec-lock verify`** JSON rollup): ");
            s.append(count_text(r.passed).as_str());
            s.append(" passed / ");
            s.append(count_text(r.total).as_str());
            s.append(" total (partial ");
            s.append(count_text(r.partial).as_str());
            s.append(", failed ");
            s.append(count_text(r.failed).as_str());
            s.append(", not_implemented ");
            s.append(count_text(r.not_implemented).as_str());
            s.append(")\n");
            s
        },
    }
}

/// A rollup in Markdown.
pub open spec fn rollup_markdown(which: Seq<char>, o: Option<WitnessVerifyRollup>) -> Seq<char> {
    match o {
        None => ""@,
        Some(r) => "- **"@ + which + " verify rollup** (`--rollup-from-verify-json`): "@
            + text::decimal(r.passed as nat) + " passed / "@ + text::decimal(r.total as nat)
            + " total — partial "@ + text::decimal(r.partial as nat) + "; failed "@ + text::decimal(
            r.failed as nat,
        ) + "; not_implemented "@ + text::decimal(r.not_implemented as nat) + "\n"@,
    }
}

/// A rollup in Markdown.
pub fn witness_rollup_markdown(which: &str, o: &Option<WitnessVerifyRollup>) -> (s: String)
    ensures
        s@ == rollup_markdown(which@, *o),
{
    match o {
        None => "".to_owned(),
        Some(r) => {
            let mut s = "- **".to_owned();
            s.append(which);
            s.append(" verify rollup** (`--rollup-from-verify-json`): ");
            s.append(count_text(r.passed).as_str());
            s.append(" passed / ");
            s.append(count_text(r.total).as_str());
            s.append(" total — partial ");
            s.append(count_text(r.partial).as_str());
            s.append("; failed ");
            s.append(count_text(r.failed).as_str());
            s.append("; not_implemented ");
            s.append(count_text(r.not_implemented).as_str());
            s.append("\n");
            s
        },
    }
}

/// The report for a reader.
pub struct HumanReport;

/// The report in Markdown.
pub struct MarkdownReport;

/// The report in JSON.
pub struct JsonReport;

/// A function in the report for a reader, behind some space.
pub open spec fn function_line(lead: Seq<char>, f: FunctionToVerify) -> Seq<char> {
    lead + (if f.contracts@.len() == 0 {
        "⚠️  no contracts"@
    } else {
        "✅"@
    }) + " "@ + f.function_name@ + " ("@ + f.file_path@ + ")\n"@
}

fn line_of_function(lead: &str, f: &FunctionToVerify) -> (r: String)
    ensures
        r@ == function_line(lead@, *f),
{
    let mut s = lead.to_owned();
    if f.contracts.len() == 0 {
        s.append("⚠️  no contracts");
    } else {
        s.append("✅");
    }
    s.append(" ");
    s.append(f.function_name.as_str());
    s.append(" (");
    s.append(f.file_path.as_str());
    s.append(")\n");
    s
}

/// A function within its section.
pub struct WithinSection;

impl Printed<WithinSection> for FunctionToVerify {
    open spec fn printed(self) -> Seq<char> {
        function_line("    - "@, self)
    }

    fn print(&self) -> (r: String) {
        line_of_function("    - ", self)
    }
}

impl Printed<HumanReport> for FunctionToVerify {
    open spec fn printed(self) -> Seq<char> {
        function_line("  "@, self)
    }

    fn print(&self) -> (r: String) {
        line_of_function("  ", self)
    }
}

impl<'a> Ranked for &'a SectionFunctions {
    open spec fn precedes(self, other: Self) -> bool {
        section_order::section_before(self.section@, other.section@)
    }

    proof fn law_precedes(a: Self, b: Self, c: Self) {
        section_order::law_section_order(a.section@, b.section@, c.section@);
    }

    fn does_precede(&self, other: &Self) -> (r: bool) {
        is_section_before(self.section.as_str(), other.section.as_str())
    }
}

impl<'a> Printed<HumanReport> for &'a SectionFunctions {
    open spec fn printed(self) -> Seq<char> {
        "  Section "@ + self.section@ + ": "@ + text::decimal(self.functions@.len())
            + " functions\n"@ + report::all_printed::<WithinSection, FunctionToVerify>(
            self.functions@,
            self.functions@.len() as int,
        )
    }

    fn print(&self) -> (r: String) {
        let mut s = "  Section ".to_owned();
        s.append(self.section.as_str());
        s.append(": ");
        s.append(count_text(self.functions.len()).as_str());
        s.append(" functions\n");
        s.append(print_all::<WithinSection, FunctionToVerify>(&self.functions).as_str());
        s
    }
}

/// Whether the functions of a section have contracts: all, some or none.
pub open spec fn section_status(g: SectionFunctions) -> Seq<char> {
    let with = with_contracts(attributes::locked_views(g.functions@), g.functions@.len() as int);
    if with == g.functions@.len() {
        "✅ Complete"@
    } else if with > 0 {
        "⚠️  Partial"@
    } else {
        "❌ No contracts"@
    }
}

impl<'a> Printed<MarkdownReport> for &'a SectionFunctions {
    open spec fn printed(self) -> Seq<char> {
        "| "@ + self.section@ + " | "@ + text::decimal(self.functions@.len()) + " | "@
            + section_status(*self) + " |\n"@
    }

    fn print(&self) -> (r: String) {
        let with = count_with_contracts(&self.functions);
        let mut s = "| ".to_owned();
        s.append(self.section.as_str());
        s.append(" | ");
        s.append(count_text(self.functions.len()).as_str());
        s.append(" | ");
        if with == self.functions.len() {
            s.append("✅ Complete");
        } else if with > 0 {
            s.append("⚠️  Partial");
        } else {
            s.append("❌ No contracts");
        }
        s.append(" |\n");
        s
    }
}

/// The groups by reference.
pub open spec fn group_refs<'a>(v: Seq<SectionFunctions>) -> Seq<&'a SectionFunctions> {
    v.map_values(|g: SectionFunctions| &g)
}

/// The groups in the order of their sections.
pub open spec fn groups_in_order<'a>(v: Seq<SectionFunctions>) -> Seq<&'a SectionFunctions> {
    sorting::in_order(group_refs(v), v.len() as int)
}

fn order_groups(v: &Vec<SectionFunctions>) -> (r: Vec<&SectionFunctions>)
    ensures
        r@ == groups_in_order(v@),
        r@.len() == v@.len(),
{
    let mut w: Vec<&SectionFunctions> = Vec::new();
    let mut i: usize = 0;
    while i < v.len()
        invariant
            i <= v@.len(),
            w@ == group_refs(v@).take(i as int),
        decreases v@.len() - i,
    {
        w.push(&v[i]);
        proof {
            assert(w@ =~= group_refs(v@).take(i + 1));
        }
        i += 1;
    }
    proof {
        assert(w@ =~= group_refs(v@));
        sorting::law_sorted(group_refs(v@), v@.len() as int);
    }
    sort(w)
}

/// A label, a count, a second one behind a stroke, and the end of the line.
pub open spec fn share_line(label: Seq<char>, a: nat, b: nat, end: Seq<char>) -> Seq<char> {
    label + text::decimal(a) + " / "@ + text::decimal(b) + end
}

/// A label, a count, a second one behind a stroke, and the end of the line.
pub fn line_of_share(label: &str, a: usize, b: usize, end: &str) -> (r: String)
    ensures
        r@ == share_line(label@, a as nat, b as nat, end@),
{
    let mut s = label.to_owned();
    s.append(count_text(a).as_str());
    s.append(" / ");
    s.append(count_text(b).as_str());
    s.append(end);
    s
}

/// Three counts, each behind its label, on a line.
pub open spec fn three_counts(
    l1: Seq<char>,
    a: nat,
    l2: Seq<char>,
    b: nat,
    l3: Seq<char>,
    c: nat,
    end: Seq<char>,
) -> Seq<char> {
    l1 + text::decimal(a) + l2 + text::decimal(b) + l3 + text::decimal(c) + end
}

/// Three counts, each behind its label, on a line.
pub fn line_of_three(l1: &str, a: usize, l2: &str, b: usize, l3: &str, c: usize, end: &str) -> (r:
    String)
    ensures
        r@ == three_counts(l1@, a as nat, l2@, b as nat, l3@, c as nat, end@),
{
    let mut s = l1.to_owned();
    s.append(count_text(a).as_str());
    s.append(l2);
    s.append(count_text(b).as_str());
    s.append(l3);
    s.append(count_text(c).as_str());
    s.append(end);
    s
}

/// The beginning of the report for a reader. `percent` is the share of functions with contracts.
pub open spec fn human_head(c: CoverageStats, percent: Seq<char>) -> Seq<char> {
    let s = "=== Spec Lock Coverage Report ===\n\n"@ + report::count_line(
        "Total spec-locked functions: "@,
        c.total_spec_locked as nat,
    ) + report::count_line("  - With contracts: "@, c.with_contracts as nat) + report::count_line(
        "  - Without contracts: "@,
        c.without_contracts as nat,
    ) + report::count_line(
        "**Formula** registry (`--spec-path`): "@,
        c.formulas_defined as nat,
    ) + share_line(
        "**`F_*`** bodies parseable (enrich/verify gate), spec-wide: "@,
        c.formulas_parseable_body as nat,
        c.formulas_defined as nat,
        "\n"@,
    ) + report::count_line(
        "Rust **`F_*`** anchors (`formula_anchor`): "@,
        c.formulas_bound_to_rust as nat,
    ) + three_counts(
        "  → resolve + parseable body: "@,
        c.formula_anchor_parse_gate_ok as nat,
        "; missing formula id: "@,
        c.formula_anchor_spec_missing_id as nat,
        "; unparseable formula body: "@,
        c.formula_anchor_unparseable_body as nat,
        "\n"@,
    ) + report::count_line(
        "**Constants** registry (`constants_stable_id_map`): "@,
        c.constants_defined as nat,
    ) + report::count_line(
        "Rust **`C_*`** anchors (`constant_anchor`): "@,
        c.constants_bound_to_rust as nat,
    ) + rollup_words("Formula witnesses (`formula_anchor`)"@, c.formulas_verify_rollup)
        + rollup_words("Constant witnesses (`constant_anchor`)"@, c.constants_verify_rollup);
    let s = if c.total_spec_locked > 0 {
        s + report::text_line("Contract coverage: "@, percent + "%"@)
    } else {
        s
    };
    s + "\n"@
}

fn print_head(c: &CoverageStats, percent: &str) -> (r: String)
    ensures
        r@ == human_head(*c, percent@),
{
    let mut s = "=== Spec Lock Coverage Report ===\n\n".to_owned();
    s.append(line_of_count("Total spec-locked functions: ", c.total_spec_locked).as_str());
    s.append(line_of_count("  - With contracts: ", c.with_contracts).as_str());
    s.append(line_of_count("  - Without contracts: ", c.without_contracts).as_str());
    s.append(line_of_count("**Formula** registry (`--spec-path`): ", c.formulas_defined).as_str());
    s.append(
        line_of_share(
            "**`F_*`** bodies parseable (enrich/verify gate), spec-wide: ",
            c.formulas_parseable_body,
            c.formulas_defined,
            "\n",
        ).as_str(),
    );
    s.append(
        line_of_count(
            "Rust **`F_*`** anchors (`formula_anchor`): ",
            c.formulas_bound_to_rust,
        ).as_str(),
    );
    s.append(
        line_of_three(
            "  → resolve + parseable body: ",
            c.formula_anchor_parse_gate_ok,
            "; missing formula id: ",
            c.formula_anchor_spec_missing_id,
            "; unparseable formula body: ",
            c.formula_anchor_unparseable_body,
            "\n",
        ).as_str(),
    );
    s.append(
        line_of_count(
            "**Constants** registry (`constants_stable_id_map`): ",
            c.constants_defined,
        ).as_str(),
    );
    s.append(
        line_of_count(
            "Rust **`C_*`** anchors (`constant_anchor`): ",
            c.constants_bound_to_rust,
        ).as_str(),
    );
    s.append(
        witness_rollup_human_blurb(
            "Formula witnesses (`formula_anchor`)",
            &c.formulas_verify_rollup,
        ).as_str(),
    );
    s.append(
        witness_rollup_human_blurb(
            "Constant witnesses (`constant_anchor`)",
            &c.constants_verify_rollup,
        ).as_str(),
    );
    if c.total_spec_locked > 0 {
        s.append(line_of_text("Contract coverage: ", cat(percent, "%").as_str()).as_str());
    }
    s.append("\n");
    s
}

/// The report for a reader up to and with the functions.
pub open spec fn human_functions(c: CoverageStats, percent: Seq<char>) -> Seq<char> {
    let s = human_head(c, percent);
    let s = if c.by_section@.len() > 0 {
        s + "Coverage by Orange Paper Section:\n"@ + "--------------------------------\n"@
            + report::all_printed::<HumanReport, &SectionFunctions>(
            groups_in_order(c.by_section@),
            c.by_section@.len() as int,
        ) + "\n"@
    } else {
        s
    };
    if c.without_section@.len() > 0 {
        s + "Functions with auto-inferred sections:\n"@
            + "--------------------------------------\n"@ + report::all_printed::<
            HumanReport,
            FunctionToVerify,
        >(c.without_section@, c.without_section@.len() as int) + "\n"@
    } else {
        s
    }
}

fn print_functions(c: &CoverageStats, percent: &str) -> (r: String)
    ensures
        r@ == human_functions(*c, percent@),
{
    let mut s = print_head(c, percent);
    if c.by_section.len() > 0 {
        let groups = order_groups(&c.by_section);
        s.append("Coverage by Orange Paper Section:\n");
        s.append("--------------------------------\n");
        s.append(print_all::<HumanReport, &SectionFunctions>(&groups).as_str());
        s.append("\n");
    }
    if c.without_section.len() > 0 {
        s.append("Functions with auto-inferred sections:\n");
        s.append("--------------------------------------\n");
        s.append(print_all::<HumanReport, FunctionToVerify>(&c.without_section).as_str());
        s.append("\n");
    }
    s
}

/// The report for a reader.
pub open spec fn coverage_text(c: CoverageStats, percent: Seq<char>) -> Seq<char> {
    let s = human_functions(c, percent) + "Summary:\n"@ + "--------\n"@ + report::count_line(
        "  Total sections covered: "@,
        c.by_section@.len(),
    ) + report::count_line("  Functions with contracts: "@, c.with_contracts as nat)
        + report::count_line("  Functions without contracts: "@, c.without_contracts as nat)
        + report::count_line("  Formulas defined (merged spec): "@, c.formulas_defined as nat)
        + report::count_line(
        "  Formulas with parseable **`$$`** bodies: "@,
        c.formulas_parseable_body as nat,
    ) + report::count_line(
        "  Rust **`F_*`** anchors on functions: "@,
        c.formulas_bound_to_rust as nat,
    ) + report::count_line(
        "  Anchors (resolve + parseable): "@,
        c.formula_anchor_parse_gate_ok as nat,
    ) + report::count_line(
        "  Anchors (missing formula id): "@,
        c.formula_anchor_spec_missing_id as nat,
    ) + report::count_line(
        "  Anchors (unparseable formula body): "@,
        c.formula_anchor_unparseable_body as nat,
    ) + report::count_line(
        "  Constants indexed (`constants_stable_id_map`): "@,
        c.constants_defined as nat,
    ) + report::count_line(
        "  Rust **`C_*`** anchors (`constant_anchor`): "@,
        c.constants_bound_to_rust as nat,
    ) + rollup_words("  Formula verify rollup (`formula_anchor` rows)"@, c.formulas_verify_rollup)
        + rollup_words(
        "  Constant verify rollup (`constant_anchor` rows)"@,
        c.constants_verify_rollup,
    );
    if c.total_spec_locked > 0 {
        s + report::text_line("  Contract coverage: "@, percent + "%"@)
    } else {
        s
    }
}

/// The report for a reader. `percent` is the share of functions with contracts, with one digit behind
/// the point.
pub fn format_coverage_human(stats: &CoverageStats, percent: &str) -> (r: String)
    ensures
        r@ == coverage_text(*stats, percent@),
{
    let mut s = print_functions(stats, percent);
    s.append("Summary:\n");
    s.append("--------\n");
    s.append(line_of_count("  Total sections covered: ", stats.by_section.len()).as_str());
    s.append(line_of_count("  Functions with contracts: ", stats.with_contracts).as_str());
    s.append(line_of_count("  Functions without contracts: ", stats.without_contracts).as_str());
    s.append(line_of_count("  Formulas defined (merged spec): ", stats.formulas_defined).as_str());
    s.append(
        line_of_count(
            "  Formulas with parseable **`$$`** bodies: ",
            stats.formulas_parseable_body,
        ).as_str(),
    );
    s.append(
        line_of_count(
            "  Rust **`F_*`** anchors on functions: ",
            stats.formulas_bound_to_rust,
        ).as_str(),
    );
    s.append(
        line_of_count(
            "  Anchors (resolve + parseable): ",
            stats.formula_anchor_parse_gate_ok,
        ).as_str(),
    );
    s.append(
        line_of_count(
            "  Anchors (missing formula id): ",
            stats.formula_anchor_spec_missing_id,
        ).as_str(),
    );
    s.append(
        line_of_count(
            "  Anchors (unparseable formula body): ",
            stats.formula_anchor_unparseable_body,
        ).as_str(),
    );
    s.append(
        line_of_count(
            "  Constants indexed (`constants_stable_id_map`): ",
            stats.constants_defined,
        ).as_str(),
    );
    s.append(
        line_of_count(
            "  Rust **`C_*`** anchors (`constant_anchor`): ",
            stats.constants_bound_to_rust,
        ).as_str(),
    );
    s.append(
        witness_rollup_human_blurb(
            "  Formula verify rollup (`formula_anchor` rows)",
            &stats.formulas_verify_rollup,
        ).as_str(),
    );
    s.append(
        witness_rollup_human_blurb(
            "  Constant verify rollup (`constant_anchor` rows)",
            &stats.constants_verify_rollup,
        ).as_str(),
    );
    if stats.total_spec_locked > 0 {
        s.append(line_of_text("  Contract coverage: ", cat(percent, "%").as_str()).as_str());
    }
    s
}

impl Recorded<JsonReport> for FunctionToVerify {
    open spec fn recorded(self) -> JsonForm {
        JsonForm::Object(
            map![
                "name"@ => JsonForm::Text(self.function_name@),
                "file"@ => JsonForm::Text(self.file_path@),
                "has_contracts"@ => JsonForm::Truth(self.contracts@.len() > 0),
                "contract_count"@ => json::number(self.contracts@.len()),
            ],
        )
    }

    fn record(&self) -> (r: serde_json::Value) {
        let mut o = Fields::new();
        o.put_text("name", self.function_name.as_str());
        o.put_text("file", self.file_path.as_str());
        o.put_truth("has_contracts", self.contracts.len() > 0);
        o.put_count("contract_count", self.contracts.len());
        o.close()
    }
}

/// The functions of a section as a JSON value.
pub open spec fn group_json(g: SectionFunctions) -> JsonForm {
    JsonForm::Object(
        map![
            "count"@ => json::number(g.functions@.len()),
            "functions"@ => report::all_recorded::<JsonReport, FunctionToVerify>(g.functions@),
        ],
    )
}

/// The first `n` groups as the entries of an object.
pub open spec fn group_entries(v: Seq<SectionFunctions>, n: int) -> Map<Seq<char>, JsonForm>
    decreases n,
{
    if n <= 0 || n > v.len() {
        Map::empty()
    } else {
        group_entries(v, n - 1).insert(v[n - 1].section@, group_json(v[n - 1]))
    }
}

fn record_groups(v: &Vec<SectionFunctions>) -> (r: serde_json::Value)
    ensures
        json::json_content(r) == JsonForm::Object(group_entries(v@, v@.len() as int)),
{
    let mut o = Fields::new();
    let mut i: usize = 0;
    while i < v.len()
        invariant
            i <= v@.len(),
            o@ == group_entries(v@, i as int),
        decreases v@.len() - i,
    {
        let mut g = Fields::new();
        g.put_count("count", v[i].functions.len());
        g.put("functions", record_all::<JsonReport, FunctionToVerify>(&v[i].functions));
        o.put(v[i].section.as_str(), g.close());
        i += 1;
    }
    o.close()
}

/// The report as a JSON value.
pub open spec fn coverage_json(c: CoverageStats, percent: Seq<char>) -> JsonForm {
    JsonForm::Object(
        map![
            "total_spec_locked"@ => json::number(c.total_spec_locked as nat),
            "with_contracts"@ => json::number(c.with_contracts as nat),
            "without_contracts"@ => json::number(c.without_contracts as nat),
            "formulas_defined"@ => json::number(c.formulas_defined as nat),
            "formulas_bound_to_rust"@ => json::number(c.formulas_bound_to_rust as nat),
            "formulas_parseable_body"@ => json::number(c.formulas_parseable_body as nat),
            "formula_anchor_parse_gate_ok"@ => json::number(c.formula_anchor_parse_gate_ok as nat),
            "formula_anchor_spec_missing_id"@ => json::number(
                c.formula_anchor_spec_missing_id as nat,
            ),
            "formula_anchor_unparseable_body"@ => json::number(
                c.formula_anchor_unparseable_body as nat,
            ),
            "constants_defined"@ => json::number(c.constants_defined as nat),
            "constants_bound_to_rust"@ => json::number(c.constants_bound_to_rust as nat),
            "formulas_verify_rollup"@ => rollup_json(c.formulas_verify_rollup),
            "constants_verify_rollup"@ => rollup_json(c.constants_verify_rollup),
            "contract_coverage_percent"@ => JsonForm::Number(percent),
            "by_section"@ => JsonForm::Object(
                group_entries(c.by_section@, c.by_section@.len() as int),
            ),
            "without_section"@ => report::all_recorded::<JsonReport, FunctionToVerify>(
                c.without_section@,
            ),
        ],
    )
}

/// The report in JSON. `percent` is the share of functions with contracts.
pub fn format_coverage_json(stats: &CoverageStats, percent: &serde_json::Number) -> (r: String)
    ensures
        r@ == json::pretty_or_empty(coverage_json(*stats, json::number_text(*percent))),
{
    let mut o = Fields::new();
    o.put_count("total_spec_locked", stats.total_spec_locked);
    o.put_count("with_contracts", stats.with_contracts);
    o.put_count("without_contracts", stats.without_contracts);
    o.put_count("formulas_defined", stats.formulas_defined);
    o.put_count("formulas_bound_to_rust", stats.formulas_bound_to_rust);
    o.put_count("formulas_parseable_body", stats.formulas_parseable_body);
    o.put_count("formula_anchor_parse_gate_ok", stats.formula_anchor_parse_gate_ok);
    o.put_count("formula_anchor_spec_missing_id", stats.formula_anchor_spec_missing_id);
    o.put_count("formula_anchor_unparseable_body", stats.formula_anchor_unparseable_body);
    o.put_count("constants_defined", stats.constants_defined);
    o.put_count("constants_bound_to_rust", stats.constants_bound_to_rust);
    o.put("formulas_verify_rollup", witness_rollup_to_json(&stats.formulas_verify_rollup));
    o.put("constants_verify_rollup", witness_rollup_to_json(&stats.constants_verify_rollup));
    o.put("contract_coverage_percent", figure(percent));
    o.put("by_section", record_groups(&stats.by_section));
    o.put("without_section", record_all::<JsonReport, FunctionToVerify>(&stats.without_section));
    let v = o.close();
    pretty_text(&v)
}

/// The beginning of the report in Markdown.
pub open spec fn markdown_head(c: CoverageStats) -> Seq<char> {
    let s = "# Spec Lock Coverage Report\n\n"@ + "## Overall Statistics\n\n"@ + report::count_line(
        "- **Total spec-locked functions**: "@,
        c.total_spec_locked as nat,
    ) + report::count_line("- **With contracts**: "@, c.with_contracts as nat) + report::count_line(
        "- **Without contracts**: "@,
        c.without_contracts as nat,
    ) + report::count_line(
        "- **Formulas defined** (`--spec-path` registry): "@,
        c.formulas_defined as nat,
    ) + report::count_line("- **Rust `F_*` anchors**: "@, c.formulas_bound_to_rust as nat);
    if c.formulas_defined == 0 {
        s
            + "- **Formulas with parseable body** (`enrich`/verify gate): *(no formulas in merged spec)*\n"@
            + "- **Anchors resolving + parseable** / **missing id** / **unparseable body**: (no merged spec formulas)\n"@
    } else {
        s + share_line(
            "- **Formulas with parseable body** (`enrich`/verify gate): "@,
            c.formulas_parseable_body as nat,
            c.formulas_defined as nat,
            "\n"@,
        ) + report::count_line(
            "- **Anchors resolving + parseable**: "@,
            c.formula_anchor_parse_gate_ok as nat,
        ) + report::count_line(
            "- **Anchors missing formula id**: "@,
            c.formula_anchor_spec_missing_id as nat,
        ) + report::count_line(
            "- **Anchors → unparseable formula body**: "@,
            c.formula_anchor_unparseable_body as nat,
        )
    }
}

fn print_markdown_head(c: &CoverageStats) -> (r: String)
    ensures
        r@ == markdown_head(*c),
{
    let mut s = "# Spec Lock Coverage Report\n\n".to_owned();
    s.append("## Overall Statistics\n\n");
    s.append(line_of_count("- **Total spec-locked functions**: ", c.total_spec_locked).as_str());
    s.append(line_of_count("- **With contracts**: ", c.with_contracts).as_str());
    s.append(line_of_count("- **Without contracts**: ", c.without_contracts).as_str());
    s.append(
        line_of_count(
            "- **Formulas defined** (`--spec-path` registry): ",
            c.formulas_defined,
        ).as_str(),
    );
    s.append(line_of_count("- **Rust `F_*` anchors**: ", c.formulas_bound_to_rust).as_str());
    if c.formulas_defined == 0 {
        s.append(
            "- **Formulas with parseable body** (`enrich`/verify gate): *(no formulas in merged spec)*\n",
        );
        s.append(
            "- **Anchors resolving + parseable** / **missing id** / **unparseable body**: (no merged spec formulas)\n",
        );
    } else {
        s.append(
            line_of_share(
                "- **Formulas with parseable body** (`enrich`/verify gate): ",
                c.formulas_parseable_body,
                c.formulas_defined,
                "\n",
            ).as_str(),
        );
        s.append(
            line_of_count(
                "- **Anchors resolving + parseable**: ",
                c.formula_anchor_parse_gate_ok,
            ).as_str(),
        );
        s.append(
            line_of_count(
                "- **Anchors missing formula id**: ",
                c.formula_anchor_spec_missing_id,
            ).as_str(),
        );
        s.append(
            line_of_count(
                "- **Anchors → unparseable formula body**: ",
                c.formula_anchor_unparseable_body,
            ).as_str(),
        );
    }
    s
}

/// The report in Markdown.
pub open spec fn coverage_markdown(c: CoverageStats, percent: Seq<char>) -> Seq<char> {
    let s = markdown_head(c) + report::count_line(
        "- **`constants_stable_id_map` size**: "@,
        c.constants_defined as nat,
    ) + report::count_line(
        "- **Rust `C_*` anchors (`constant_anchor`)**: "@,
        c.constants_bound_to_rust as nat,
    ) + rollup_markdown("`formula_anchor` rows"@, c.formulas_verify_rollup) + rollup_markdown(
        "`constant_anchor` rows"@,
        c.constants_verify_rollup,
    );
    let s = if c.total_spec_locked > 0 {
        s + report::text_line("- **Contract coverage**: "@, percent + "%"@)
    } else {
        s
    };
    let s = s + "\n"@;
    if c.by_section@.len() > 0 {
        s + "## Coverage by Orange Paper Section\n\n"@ + "| Section | Functions | Status |\n"@
            + "|---------|-----------|--------|\n"@ + report::all_printed::<
            MarkdownReport,
            &SectionFunctions,
        >(groups_in_order(c.by_section@), c.by_section@.len() as int) + "\n"@
    } else {
        s
    }
}

/// The report in Markdown. `percent` is the share of functions with contracts, with one digit
/// behind the point.
pub fn format_coverage_markdown(stats: &CoverageStats, percent: &str) -> (r: String)
    ensures
        r@ == coverage_markdown(*stats, percent@),
{
    let mut s = print_markdown_head(stats);
    s.append(
        line_of_count("- **`constants_stable_id_map` size**: ", stats.constants_defined).as_str(),
    );
    s.append(
        line_of_count(
            "- **Rust `C_*` anchors (`constant_anchor`)**: ",
            stats.constants_bound_to_rust,
        ).as_str(),
    );
    s.append(
        witness_rollup_markdown("`formula_anchor` rows", &stats.formulas_verify_rollup).as_str(),
    );
    s.append(
        witness_rollup_markdown("`constant_anchor` rows", &stats.constants_verify_rollup).as_str(),
    );
    if stats.total_spec_locked > 0 {
        s.append(line_of_text("- **Contract coverage**: ", cat(percent, "%").as_str()).as_str());
    }
    s.append("\n");
    if stats.by_section.len() > 0 {
        let groups = order_groups(&stats.by_section);
        s.append("## Coverage by Orange Paper Section\n\n");
        s.append("| Section | Functions | Status |\n");
        s.append("|---------|-----------|--------|\n");
        s.append(print_all::<MarkdownReport, &SectionFunctions>(&groups).as_str());
        s.append("\n");
    }
    s
}

/// What is counted of functions is how many have contracts, and how many are anchored to formulas
/// and to constants.
pub proof fn law_functions_are_counted(fs: Seq<LockedView>, n: int)
    requires
        0 <= n <= fs.len(),
    ensures
        with_contracts(fs, n) == fs.take(n).filter(|f: LockedView| f.contracts.len() > 0).len(),
        formula_anchors(fs, n) == fs.take(n).filter(|f: LockedView| f.formula_anchor is Some).len(),
        constant_anchors(fs, n) == fs.take(n).filter(|f: LockedView| f.constant_anchor is Some).len(),
        ungrouped(fs, n) == fs.take(n).filter(|f: LockedView| f.section is None),
    decreases n,
{
    reveal(Seq::filter);
    if n > 0 {
        law_functions_are_counted(fs, n - 1);
        assert(fs.take(n).drop_last() =~= fs.take(n - 1));
        assert(fs.take(n).last() == fs[n - 1]);
    } else {
        assert(fs.take(0) =~= seq![]);
    }
}

/// The functions of a section are those that name it, in their order.
pub proof fn law_section_has_those_that_name_it(fs: Seq<LockedView>, n: int, section: Seq<char>)
    requires
        0 <= n <= fs.len(),
    ensures
        of_section(fs, n, section) == fs.take(n).filter(|f: LockedView| f.section == Some(section)),
    decreases n,
{
    reveal(Seq::filter);
    if n > 0 {
        law_section_has_those_that_name_it(fs, n - 1, section);
        assert(fs.take(n).drop_last() =~= fs.take(n - 1));
        assert(fs.take(n).last() == fs[n - 1]);
    } else {
        assert(fs.take(0) =~= seq![]);
    }
}

/// What is counted of formulas and of anchors to them is how many can be read.
pub proof fn law_readable_formulas_are_counted(fs: Seq<FormulaView>, n: int)
    requires
        0 <= n <= fs.len(),
    ensures
        readable_formulas(fs, n) == fs.take(n).filter(
            |f: FormulaView| formula_checks::passes(f.latex_body),
        ).len(),
    decreases n,
{
    reveal(Seq::filter);
    if n > 0 {
        law_readable_formulas_are_counted(fs, n - 1);
        assert(fs.take(n).drop_last() =~= fs.take(n - 1));
        assert(fs.take(n).last() == fs[n - 1]);
    } else {
        assert(fs.take(0) =~= seq![]);
    }
}

/// The rollup of anchored functions counts their results: as passed those that passed, as partial
/// those that are partial, as not implemented those that are not, and as failed those that failed
/// or have no contracts.
pub proof fn law_rollup_counts_results(v: Seq<VerifiedRow>, n: int)
    requires
        0 <= n <= v.len(),
    ensures
        ({
            let anchored = v.take(n).filter(
                |r: VerifiedRow| patterns::group_view(r.0.formula_anchor) matches Some(s) && s.len() > 0,
            );
            let r = rolled(v.map_values(|r: VerifiedRow| witness_in(r)), n, Witness::Formula);
            &&& r.total == anchored.len()
            &&& r.passed == anchored.filter(|r: VerifiedRow| r.1 is Passed).len()
            &&& r.partial == anchored.filter(|r: VerifiedRow| r.1 is Partial).len()
            &&& r.not_implemented == anchored.filter(|r: VerifiedRow| r.1 is NotImplemented).len()
            &&& r.failed == anchored.filter(|r: VerifiedRow| r.1 is Failed || r.1 is NoContracts).len()
        }),
        ({
            let anchored = v.take(n).filter(
                |r: VerifiedRow| patterns::group_view(r.0.constant_anchor) matches Some(s) && s.len() > 0,
            );
            let r = rolled(v.map_values(|r: VerifiedRow| witness_in(r)), n, Witness::Constant);
            &&& r.total == anchored.len()
            &&& r.passed == anchored.filter(|r: VerifiedRow| r.1 is Passed).len()
            &&& r.partial == anchored.filter(|r: VerifiedRow| r.1 is Partial).len()
            &&& r.not_implemented == anchored.filter(|r: VerifiedRow| r.1 is NotImplemented).len()
            &&& r.failed == anchored.filter(|r: VerifiedRow| r.1 is Failed || r.1 is NoContracts).len()
        }),
    decreases n,
{
    reveal(Seq::filter);
    reveal_strlit("passed");
    reveal_strlit("failed");
    reveal_strlit("partial");
    reveal_strlit("not_implemented");
    assert("passed"@.len() == 6 && "failed"@.len() == 6 && "passed"@[0] == 'p' && "failed"@[0] == 'f');
    assert("partial"@.len() == 7 && "not_implemented"@.len() == 15);
    let f = |r: VerifiedRow| patterns::group_view(r.0.formula_anchor) matches Some(s) && s.len() > 0;
    let c = |r: VerifiedRow| patterns::group_view(r.0.constant_anchor) matches Some(s) && s.len() > 0;
    if n > 0 {
        law_rollup_counts_results(v, n - 1);
        assert(v.take(n).drop_last() =~= v.take(n - 1));
        assert(v.take(n).last() == v[n - 1]);
        let rows = v.map_values(|r: VerifiedRow| witness_in(r));
        assert(rows[n - 1] == witness_in(v[n - 1]));
        let a = v.take(n - 1).filter(f);
        let b = v.take(n - 1).filter(c);
        assert(a.push(v[n - 1]).drop_last() =~= a);
        assert(b.push(v[n - 1]).drop_last() =~= b);
    } else {
        assert(v.take(0) =~= seq![]);
    }
}

} // verus!
