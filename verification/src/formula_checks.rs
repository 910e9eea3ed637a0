//! Checks on the formulas of a specification by themselves: whether each can be read, and whether it
//! can hold at all.
use vstd::prelude::*;
use crate::chars;
use crate::chars::trim;
use crate::condition;
use crate::condition::extract_parseable_condition;
use crate::contracts;
use crate::contracts::ContractType;
use crate::orange_paper;
use crate::orange_paper::SpecParser;
use crate::rust_syntax;
use crate::source::{is_rust_expression, read_expression};
use crate::spec_types::{FormulaSpec, FormulaView};
use crate::text::same;
use crate::text_order;
use crate::text_order::is_before;
use crate::tree;
use crate::z3_verifier::VerificationResult;

verus! {

/// What is checked.
#[derive(Clone, Copy, Debug)]
pub struct FormulaAnalyzeConfig {
    /// Whether the solver is asked if a formula can hold.
    pub request_z3_sat: bool,
    /// The time in milliseconds that the solver has for a formula.
    pub timeout_ms: u64,
}

/// What the checks gave, formula by formula.
#[derive(Debug)]
pub struct FormulaRegistryAnalysis {
    pub rows: Vec<FormulaAnalysisRow>,
}

/// What the checks gave on a formula.
#[derive(Debug)]
pub struct FormulaAnalysisRow {
    pub formula_id: String,
    pub section: String,
    pub static_gate: FormulaStaticOutcome,
    pub z3_phase: Z3FormulaPhase,
}

/// Whether a formula can be read.
#[derive(Debug)]
pub enum FormulaStaticOutcome {
    Passed,
    Failed { message: String },
}

/// Whether a formula can hold.
#[derive(Debug)]
pub enum Z3FormulaPhase {
    /// The solver was not to be asked.
    NotRequested,
    /// The formula cannot be read.
    SkippedDueToStatic,
    /// The solver is not there.
    SkippedNoZ3Feature,
    /// It can.
    SatSmokeOk,
    /// It cannot.
    UnsatContradiction,
    Unknown { reason: String },
    Error { message: String },
}

/// `FormulaStaticOutcome` as a mathematical value.
pub enum GateView {
    Passed,
    Failed(Seq<char>),
}

/// `Z3FormulaPhase` as a mathematical value.
pub enum PhaseView {
    NotRequested,
    SkippedDueToStatic,
    SkippedNoZ3Feature,
    SatSmokeOk,
    UnsatContradiction,
    Unknown(Seq<char>),
    Error(Seq<char>),
}

/// What the checks gave on a formula, as a mathematical value.
#[verifier::ext_equal]
pub struct RowView {
    pub formula_id: Seq<char>,
    pub section: Seq<char>,
    pub static_gate: GateView,
    pub z3_phase: PhaseView,
}

impl View for FormulaStaticOutcome {
    type V = GateView;

    open spec fn view(&self) -> GateView {
        match *self {
            FormulaStaticOutcome::Passed => GateView::Passed,
            FormulaStaticOutcome::Failed { message } => GateView::Failed(message@),
        }
    }
}

impl View for Z3FormulaPhase {
    type V = PhaseView;

    open spec fn view(&self) -> PhaseView {
        match *self {
            Z3FormulaPhase::NotRequested => PhaseView::NotRequested,
            Z3FormulaPhase::SkippedDueToStatic => PhaseView::SkippedDueToStatic,
            Z3FormulaPhase::SkippedNoZ3Feature => PhaseView::SkippedNoZ3Feature,
            Z3FormulaPhase::SatSmokeOk => PhaseView::SatSmokeOk,
            Z3FormulaPhase::UnsatContradiction => PhaseView::UnsatContradiction,
            Z3FormulaPhase::Unknown { reason } => PhaseView::Unknown(reason@),
            Z3FormulaPhase::Error { message } => PhaseView::Error(message@),
        }
    }
}

impl View for FormulaAnalysisRow {
    type V = RowView;

    open spec fn view(&self) -> RowView {
        RowView {
            formula_id: self.formula_id@,
            section: self.section@,
            static_gate: self.static_gate@,
            z3_phase: self.z3_phase@,
        }
    }
}

/// Rows as mathematical values.
pub open spec fn row_views(v: Seq<FormulaAnalysisRow>) -> Seq<RowView> {
    v.map_values(|r: FormulaAnalysisRow| r@)
}

// ---------------------------------------------------------------------------
// Whether formulas can be read
// ---------------------------------------------------------------------------
/// Whether a formula can be read, by the expression that it becomes and whether that is Rust.
pub open spec fn passes_given(body: Seq<char>, expression: Option<Seq<char>>, valid: bool) -> bool {
    chars::trimmed(body).len() > 0 && expression is Some && valid
}

/// Whether a formula can be read: it is not empty, it becomes an expression, and that is Rust.
#[verifier::opaque]
pub open spec fn passes(body: Seq<char>) -> bool {
    let e = condition::extraction(chars::trimmed(body));
    passes_given(body, e, e is Some && rust_syntax::expression_read(e->0) is Some)
}

/// Whether a formula can be read.
pub fn formula_latex_parseable_for_verify(latex_body: &str) -> (r: bool)
    ensures
        r == passes(latex_body@),
{
    proof {
        reveal(passes);
        reveal_strlit("");
    }
    let c = trim(latex_body);
    proof {
        assert(c@.len() == 0 ==> c@ =~= ""@);
    }
    if same(c.as_str(), "") {
        return false;
    }
    match extract_parseable_condition(c.as_str()) {
        Some(s) => is_rust_expression(s.as_str()),
        None => false,
    }
}

/// What the check on reading gives.
pub open spec fn gate(passed: bool) -> GateView {
    if passed {
        GateView::Passed
    } else {
        GateView::Failed("fails verify/enrich latex parse gate"@)
    }
}

/// What the check on reading gives.
pub fn static_outcome(passed: bool) -> (r: FormulaStaticOutcome)
    ensures
        r@ == gate(passed),
{
    if passed {
        FormulaStaticOutcome::Passed
    } else {
        FormulaStaticOutcome::Failed { message: "fails verify/enrich latex parse gate".to_owned() }
    }
}

/// The question whether a formula can hold at all, as a postcondition; or what is said where the
/// formula cannot be read.
pub fn smoke_contract(latex_body: &str) -> (r: Result<contracts::Contract, Z3FormulaPhase>)
    ensures
        match condition::extraction(chars::trimmed(latex_body@)) {
            None => r matches Err(p) && p@ == PhaseView::Error(
                "extract_parseable_condition None (unexpected after static pass)"@,
            ),
            Some(s) => match r {
                Ok(c) => c.contract_type == ContractType::Ensures && rust_syntax::expression_read(s)
                    == Some(tree::expr_view(*c.condition)),
                Err(p) => rust_syntax::expression_read(s) is None && p@ == PhaseView::Error(
                    "invalid Expr (unexpected after static pass)"@,
                ),
            },
        },
{
    let c = trim(latex_body);
    let s = match extract_parseable_condition(c.as_str()) {
        Some(s) => s,
        None => {
            return Err(
                Z3FormulaPhase::Error {
                    message:
                        "extract_parseable_condition None (unexpected after static pass)".to_owned(),
                },
            );
        },
    };
    match read_expression(s.as_str()) {
        Some(condition) => Ok(
            contracts::Contract { contract_type: ContractType::Ensures, condition, comment: None },
        ),
        None => Err(
            Z3FormulaPhase::Error {
                message: "invalid Expr (unexpected after static pass)".to_owned(),
            },
        ),
    }
}

/// What the solver's ruling on a formula by itself means.
pub open spec fn smoke_phase(v: VerificationResult) -> PhaseView {
    match v {
        VerificationResult::Verified { .. } => PhaseView::SatSmokeOk,
        VerificationResult::Failed { .. } => PhaseView::UnsatContradiction,
        VerificationResult::Unknown { reason } => PhaseView::Unknown(reason@),
        VerificationResult::Error { error } => PhaseView::Error(error@),
    }
}

/// What the solver's ruling on a formula by itself means.
pub fn phase_of_ruling(v: VerificationResult) -> (r: Z3FormulaPhase)
    ensures
        r@ == smoke_phase(v),
{
    match v {
        VerificationResult::Verified { .. } => Z3FormulaPhase::SatSmokeOk,
        VerificationResult::Failed { .. } => Z3FormulaPhase::UnsatContradiction,
        VerificationResult::Unknown { reason } => Z3FormulaPhase::Unknown { reason },
        VerificationResult::Error { error } => Z3FormulaPhase::Error { message: error },
    }
}

// ---------------------------------------------------------------------------
// The order of formulas
// ---------------------------------------------------------------------------
/// Where a formula goes among ordered ones from `i` on: before the first with a greater name.
pub open spec fn slot_from(v: Seq<FormulaView>, id: Seq<char>, i: int) -> int
    decreases v.len() - i,
{
    if i < 0 || i >= v.len() || text_order::before(id, v[i].id) {
        i
    } else {
        slot_from(v, id, i + 1)
    }
}

/// The first `n` formulas in the order of their names. Those of the same name stay in their order.
pub open spec fn by_name(v: Seq<FormulaView>, n: int) -> Seq<FormulaView>
    decreases n,
{
    if n <= 0 || n > v.len() {
        seq![]
    } else {
        let done = by_name(v, n - 1);
        done.insert(slot_from(done, v[n - 1].id, 0), v[n - 1])
    }
}

/// Each name is not greater than those behind it.
pub open spec fn in_order(v: Seq<FormulaView>) -> bool {
    forall|i: int, j: int|
        0 <= i < j < v.len() ==> !text_order::before(#[trigger] v[j].id, #[trigger] v[i].id)
}

proof fn lemma_slot(v: Seq<FormulaView>, id: Seq<char>, i: int)
    requires
        0 <= i <= v.len(),
    ensures
        i <= slot_from(v, id, i) <= v.len(),
        forall|k: int|
            i <= k < slot_from(v, id, i) ==> !text_order::before(id, (#[trigger] v[k]).id),
        slot_from(v, id, i) < v.len() ==> text_order::before(id, v[slot_from(v, id, i)].id),
    decreases v.len() - i,
{
    if i < v.len() && !text_order::before(id, v[i].id) {
        lemma_slot(v, id, i + 1);
    }
}

/// The order of names is kept, and no formula is lost or added.
pub proof fn law_by_name_is_ordered(v: Seq<FormulaView>, n: int)
    requires
        0 <= n <= v.len(),
    ensures
        in_order(by_name(v, n)),
        by_name(v, n).len() == n,
        by_name(v, n).to_multiset() == v.take(n).to_multiset(),
    decreases n,
{
    if n > 0 {
        law_by_name_is_ordered(v, n - 1);
        let done = by_name(v, n - 1);
        let x = v[n - 1];
        lemma_slot(done, x.id, 0);
        let p = slot_from(done, x.id, 0);
        let now = done.insert(p, x);
        assert forall|i: int, j: int| 0 <= i < j < now.len() implies !text_order::before(
            #[trigger] now[j].id,
            #[trigger] now[i].id,
        ) by {
            if j == p {
                assert(now[i] == done[i]);
            } else if i == p {
                assert(now[j] == done[j - 1]);
                assert(text_order::before(x.id, done[p].id));
                if text_order::before(done[j - 1].id, x.id) {
                    text_order::law_text_order_is_transitive(done[j - 1].id, x.id, done[p].id);
                    text_order::law_texts_are_ordered(done[p].id, done[p].id);
                    if j - 1 > p {
                        assert(!text_order::before(done[j - 1].id, done[p].id));
                    }
                }
            } else {
                let a = if i < p {
                    i
                } else {
                    i - 1
                };
                let b = if j < p {
                    j
                } else {
                    j - 1
                };
                assert(now[i] == done[a]);
                assert(now[j] == done[b]);
                assert(!text_order::before(done[b].id, done[a].id));
            }
        }
        broadcast use vstd::seq_lib::group_to_multiset_ensures;

        assert(v.take(n) =~= v.take(n - 1).push(x));
        assert(now.to_multiset() =~= done.to_multiset().insert(x)) by {
            vstd::seq_lib::to_multiset_insert(done, p, x);
        }
    } else {
        assert(v.take(0) =~= seq![]);
    }
}

fn slot_for(v: &Vec<&FormulaSpec>, id: &str) -> (r: usize)
    ensures
        r == slot_from(orange_paper::formula_refs(v@), id@, 0),
        r <= v@.len(),
{
    let ghost fv = orange_paper::formula_refs(v@);
    let mut i: usize = 0;
    while i < v.len()
        invariant
            i <= v@.len(),
            fv == orange_paper::formula_refs(v@),
            slot_from(fv, id@, 0) == slot_from(fv, id@, i as int),
        decreases v@.len() - i,
    {
        proof {
            assert(fv[i as int] == v@[i as int]@);
            assert(fv.len() == v@.len());
        }
        if is_before(id, v[i].id.as_str()) {
            return i;
        }
        i += 1;
    }
    proof {
        assert(fv.len() == v@.len());
    }
    i
}

/// The formulas of a specification in the order of their names.
pub fn sorted_formulas(parser: &SpecParser) -> (r: Vec<&FormulaSpec>)
    ensures
        ({
            let all = orange_paper::formulas_in(parser.read(), parser.read().len() as int);
            orange_paper::formula_refs(r@) == by_name(all, all.len() as int)
        }),
{
    let all = parser.formulas();
    let ghost av = orange_paper::formula_refs(all@);
    let mut out: Vec<&FormulaSpec> = Vec::new();
    let mut i: usize = 0;
    proof {
        assert(orange_paper::formula_refs(out@) =~= seq![]);
        assert(av.len() == all@.len());
    }
    while i < all.len()
        invariant
            i <= all@.len(),
            av == orange_paper::formula_refs(all@),
            orange_paper::formula_refs(out@) == by_name(av, i as int),
        decreases all@.len() - i,
    {
        let ghost had = orange_paper::formula_refs(out@);
        proof {
            assert(av[i as int] == all@[i as int]@);
            assert(av.len() == all@.len());
        }
        let p = slot_for(&out, all[i].id.as_str());
        out.insert(p, all[i]);
        proof {
            assert(orange_paper::formula_refs(out@) =~= had.insert(p as int, av[i as int]));
        }
        i += 1;
    }
    out
}

// ---------------------------------------------------------------------------
// The analysis
// ---------------------------------------------------------------------------
/// What is said of a formula that the solver is or is not asked on. `answer` is what the solver said,
/// where it is there.
pub open spec fn phase_given(passed: bool, requested: bool, answer: Option<PhaseView>) -> PhaseView {
    if !requested {
        PhaseView::NotRequested
    } else if !passed {
        PhaseView::SkippedDueToStatic
    } else {
        match answer {
            Some(p) => p,
            None => PhaseView::SkippedNoZ3Feature,
        }
    }
}

/// What the checks give on a formula.
pub open spec fn row_of(f: FormulaView, requested: bool, answer: Option<PhaseView>) -> RowView {
    let passed = passes(f.latex_body);
    RowView {
        formula_id: f.id,
        section: f.section,
        static_gate: gate(passed),
        z3_phase: phase_given(passed, requested, answer),
    }
}

/// What the solver said on the formula `i`, where it is there.
pub open spec fn answer_at(answers: Option<Seq<Z3FormulaPhase>>, i: int) -> Option<PhaseView> {
    match answers {
        Some(v) => Some(v[i]@),
        None => None,
    }
}

/// What the checks give on formulas.
pub open spec fn rows_of(
    fs: Seq<FormulaView>,
    requested: bool,
    answers: Option<Seq<Z3FormulaPhase>>,
) -> Seq<RowView> {
    Seq::new(fs.len(), |i: int| row_of(fs[i], requested, answer_at(answers, i)))
}

fn copy_phase(p: &Z3FormulaPhase) -> (r: Z3FormulaPhase)
    ensures
        r@ == p@,
{
    match p {
        Z3FormulaPhase::NotRequested => Z3FormulaPhase::NotRequested,
        Z3FormulaPhase::SkippedDueToStatic => Z3FormulaPhase::SkippedDueToStatic,
        Z3FormulaPhase::SkippedNoZ3Feature => Z3FormulaPhase::SkippedNoZ3Feature,
        Z3FormulaPhase::SatSmokeOk => Z3FormulaPhase::SatSmokeOk,
        Z3FormulaPhase::UnsatContradiction => Z3FormulaPhase::UnsatContradiction,
        Z3FormulaPhase::Unknown { reason } => Z3FormulaPhase::Unknown {
            reason: reason.as_str().to_owned(),
        },
        Z3FormulaPhase::Error { message } => Z3FormulaPhase::Error {
            message: message.as_str().to_owned(),
        },
    }
}

/// What is said of a formula that the solver is or is not asked on.
pub fn phase_for(passed: bool, requested: bool, answer: Option<&Z3FormulaPhase>) -> (r: Z3FormulaPhase)
    ensures
        r@ == phase_given(
            passed,
            requested,
            match answer {
                Some(p) => Some(p@),
                None => None,
            },
        ),
{
    if !requested {
        Z3FormulaPhase::NotRequested
    } else if !passed {
        Z3FormulaPhase::SkippedDueToStatic
    } else {
        match answer {
            Some(p) => copy_phase(p),
            None => Z3FormulaPhase::SkippedNoZ3Feature,
        }
    }
}

/// Checks formulas, by what the solver said on each. `answers` is absent where the solver is not
/// there; what it holds at a formula that the solver is not asked on does not matter.
pub fn analyze_formulas(
    fs: &Vec<&FormulaSpec>,
    cfg: FormulaAnalyzeConfig,
    answers: Option<&Vec<Z3FormulaPhase>>,
) -> (r: FormulaRegistryAnalysis)
    requires
        answers matches Some(v) ==> v@.len() == fs@.len(),
    ensures
        row_views(r.rows@) == rows_of(
            orange_paper::formula_refs(fs@),
            cfg.request_z3_sat,
            match answers {
                Some(v) => Some(v@),
                None => None,
            },
        ),
{
    let ghost fv = orange_paper::formula_refs(fs@);
    let ghost said = match answers {
        Some(v) => Some(v@),
        None => None,
    };
    let mut rows: Vec<FormulaAnalysisRow> = Vec::new();
    let mut i: usize = 0;
    while i < fs.len()
        invariant
            i <= fs@.len(),
            answers matches Some(v) ==> v@.len() == fs@.len() && said == Some(v@),
            answers is None ==> said is None,
            fv == orange_paper::formula_refs(fs@),
            rows@.len() == i,
            forall|k: int|
                0 <= k < i ==> (#[trigger] rows@[k])@ == row_of(
                    fv[k],
                    cfg.request_z3_sat,
                    answer_at(said, k),
                ),
        decreases fs@.len() - i,
    {
        proof {
            assert(fv[i as int] == fs@[i as int]@);
        }
        let f = fs[i];
        let passed = formula_latex_parseable_for_verify(f.latex_body.as_str());
        let answer: Option<&Z3FormulaPhase> = match answers {
            Some(v) => Some(&v[i]),
            None => None,
        };
        rows.push(
            FormulaAnalysisRow {
                formula_id: f.id.as_str().to_owned(),
                section: f.section.as_str().to_owned(),
                static_gate: static_outcome(passed),
                z3_phase: phase_for(passed, cfg.request_z3_sat, answer),
            },
        );
        i += 1;
    }
    proof {
        assert(row_views(rows@) =~= rows_of(fv, cfg.request_z3_sat, said));
    }
    FormulaRegistryAnalysis { rows }
}

/// Whether what the solver said on a formula is an answer, and not that it was not asked.
pub open spec fn is_answer(p: PhaseView) -> bool {
    !(p is NotRequested) && !(p is SkippedDueToStatic)
}

/// Where the solver is not requested, no row says that it was asked. Where it is requested, every row
/// says so, and the formulas that it is spared are just those that cannot be read.
pub open spec fn phases_fit(rows: Seq<RowView>, requested: bool) -> bool {
    forall|i: int|
        0 <= i < rows.len() ==> if requested {
            !((#[trigger] rows[i]).z3_phase is NotRequested) && (rows[i].z3_phase
                is SkippedDueToStatic <==> rows[i].static_gate is Failed)
        } else {
            rows[i].z3_phase is NotRequested
        }
}

/// Checks the formulas of a specification, in the order of their names.
pub fn analyze_formula_registry(
    parser: &SpecParser,
    cfg: FormulaAnalyzeConfig,
    answers: Option<&Vec<Z3FormulaPhase>>,
) -> (r: FormulaRegistryAnalysis)
    requires
        answers matches Some(v) ==> v@.len() == orange_paper::formulas_in(
            parser.read(),
            parser.read().len() as int,
        ).len() && (cfg.request_z3_sat ==> forall|i: int|
            0 <= i < v@.len() ==> is_answer((#[trigger] v@[i])@)),
    ensures
        phases_fit(row_views(r.rows@), cfg.request_z3_sat),
        ({
            let all = orange_paper::formulas_in(parser.read(), parser.read().len() as int);
            row_views(r.rows@) == rows_of(
                by_name(all, all.len() as int),
                cfg.request_z3_sat,
                match answers {
                    Some(v) => Some(v@),
                    None => None,
                },
            )
        }),
{
    let fs = sorted_formulas(parser);
    proof {
        let all = orange_paper::formulas_in(parser.read(), parser.read().len() as int);
        law_by_name_is_ordered(all, all.len() as int);
        assert(orange_paper::formula_refs(fs@).len() == fs@.len());
    }
    let r = analyze_formulas(&fs, cfg, answers);
    proof {
        let rv = row_views(r.rows@);
        assert forall|i: int| 0 <= i < rv.len() implies if cfg.request_z3_sat {
            !((#[trigger] rv[i]).z3_phase is NotRequested) && (rv[i].z3_phase is SkippedDueToStatic
                <==> rv[i].static_gate is Failed)
        } else {
            rv[i].z3_phase is NotRequested
        } by {
            if let Some(v) = answers {
                assert(is_answer(v@[i]@) || !cfg.request_z3_sat);
            }
        }
    }
    r
}

/// Whether a formula cannot be read.
pub fn registry_has_blocking_static_failure(analysis: &FormulaRegistryAnalysis) -> (r: bool)
    ensures
        r == exists|i: int|
            0 <= i < analysis.rows@.len() && (#[trigger] analysis.rows@[i]).static_gate is Failed,
{
    let mut i: usize = 0;
    while i < analysis.rows.len()
        invariant
            i <= analysis.rows@.len(),
            forall|k: int|
                0 <= k < i ==> !((#[trigger] analysis.rows@[k]).static_gate is Failed),
        decreases analysis.rows@.len() - i,
    {
        if let FormulaStaticOutcome::Failed { .. } = &analysis.rows[i].static_gate {
            return true;
        }
        i += 1;
    }
    false
}

/// Whether what is said of a formula stands in the way: the solver is not there, or it did not say
/// that the formula can hold.
pub open spec fn blocks(p: PhaseView) -> bool {
    p is SkippedNoZ3Feature || p is UnsatContradiction || p is Unknown || p is Error
}

/// Whether something is said of a formula that stands in the way.
pub fn registry_has_blocking_z3_outcome(analysis: &FormulaRegistryAnalysis) -> (r: bool)
    ensures
        r == exists|i: int|
            0 <= i < analysis.rows@.len() && blocks((#[trigger] analysis.rows@[i]).z3_phase@),
{
    let mut i: usize = 0;
    while i < analysis.rows.len()
        invariant
            i <= analysis.rows@.len(),
            forall|k: int|
                0 <= k < i ==> !blocks((#[trigger] analysis.rows@[k]).z3_phase@),
        decreases analysis.rows@.len() - i,
    {
        let found = match &analysis.rows[i].z3_phase {
            Z3FormulaPhase::SkippedNoZ3Feature => true,
            Z3FormulaPhase::UnsatContradiction => true,
            Z3FormulaPhase::Unknown { .. } => true,
            Z3FormulaPhase::Error { .. } => true,
            _ => false,
        };
        if found {
            return true;
        }
        i += 1;
    }
    false
}

/// Where the solver is not to be asked, nothing stands in the way on its side.
pub proof fn law_unrequested_does_not_block(
    fs: Seq<FormulaView>,
    answers: Option<Seq<Z3FormulaPhase>>,
    i: int,
)
    requires
        0 <= i < fs.len(),
    ensures
        !blocks(rows_of(fs, false, answers)[i].z3_phase),
{
}

/// A formula stands in the way exactly where the solver was not there or did not find that it can
/// hold; one that cannot be read is not put to the solver.
pub proof fn law_only_satisfiable_formulas_pass(v: VerificationResult, f: FormulaView)
    ensures
        blocks(smoke_phase(v)) <==> !(v is Verified),
        passes(f.latex_body) ==> row_of(f, true, Some(smoke_phase(v))).z3_phase == smoke_phase(v) && blocks(
            row_of(f, true, None).z3_phase,
        ) && row_of(f, true, None).static_gate is Passed,
        !passes(f.latex_body) ==> !blocks(row_of(f, true, Some(smoke_phase(v))).z3_phase) && row_of(
            f,
            true,
            None,
        ).static_gate is Failed,
{
}

} // verus!
