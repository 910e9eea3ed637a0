//! The results of verifications as reports: as text for a reader, as JSON, as JUnit XML and as Markdown.
use vstd::prelude::*;
use crate::attributes::FunctionToVerify;
use crate::formula_checks::{
    FormulaAnalysisRow,
    FormulaRegistryAnalysis,
    FormulaStaticOutcome,
    Z3FormulaPhase,
};
use crate::json;
use crate::json::{null, pretty_text, word, Fields, JsonForm};
use crate::report;
use crate::report::{line_of_count, line_of_text, print_all, record_all, Printed, Recorded};
use crate::text;
use crate::text::{count_text, from_range, replace, rfind_pos, same, split, to_chars};
use crate::verify::{FailureKind, VerificationResult};

verus! {

/// A function and what its verification gave.
pub type VerifiedRow = (FunctionToVerify, VerificationResult);

/// The version of the tool in reports.
pub const VERSION: &'static str = "0.1.0";

// ---------------------------------------------------------------------------
// How many of which kind
// ---------------------------------------------------------------------------
/// The kinds of results.
#[derive(Debug, Clone, Copy, PartialEq, Eq, Structural)]
pub enum Standing {
    Passed,
    Failed,
    Partial,
    NoContracts,
    NotImplemented,
}

/// The kind of a result.
pub open spec fn standing(r: VerificationResult) -> Standing {
    match r {
        VerificationResult::Passed { .. } => Standing::Passed,
        VerificationResult::Failed { .. } => Standing::Failed,
        VerificationResult::Partial { .. } => Standing::Partial,
        VerificationResult::NoContracts { .. } => Standing::NoContracts,
        VerificationResult::NotImplemented => Standing::NotImplemented,
    }
}

/// The kind of a result.
pub fn standing_of(r: &VerificationResult) -> (k: Standing)
    ensures
        k == standing(*r),
{
    match r {
        VerificationResult::Passed { .. } => Standing::Passed,
        VerificationResult::Failed { .. } => Standing::Failed,
        VerificationResult::Partial { .. } => Standing::Partial,
        VerificationResult::NoContracts { .. } => Standing::NoContracts,
        VerificationResult::NotImplemented => Standing::NotImplemented,
    }
}

/// How many of the first `n` results are of a kind.
pub open spec fn tally(v: Seq<VerifiedRow>, n: int, k: Standing) -> nat
    decreases n,
{
    if n <= 0 || n > v.len() {
        0
    } else if standing(v[n - 1].1) == k {
        tally(v, n - 1, k) + 1
    } else {
        tally(v, n - 1, k)
    }
}

/// How many results are of a kind.
pub open spec fn total(v: Seq<VerifiedRow>, k: Standing) -> nat {
    tally(v, v.len() as int, k)
}

/// Every result is of one kind: the numbers of the kinds add up to the number of results.
pub proof fn law_tallies_add_up(v: Seq<VerifiedRow>, n: int)
    requires
        0 <= n <= v.len(),
    ensures
        tally(v, n, Standing::Passed) + tally(v, n, Standing::Failed) + tally(
            v,
            n,
            Standing::Partial,
        ) + tally(v, n, Standing::NoContracts) + tally(v, n, Standing::NotImplemented) == n,
    decreases n,
{
    if n > 0 {
        law_tallies_add_up(v, n - 1);
    }
}

/// How many results are of a kind.
pub fn count_of(v: &Vec<VerifiedRow>, k: Standing) -> (r: usize)
    ensures
        r == total(v@, k),
        r <= v@.len(),
{
    let mut n: usize = 0;
    let mut i: usize = 0;
    while i < v.len()
        invariant
            n <= i <= v@.len(),
            n == tally(v@, i as int, k),
        decreases v@.len() - i,
    {
        if standing_of(&v[i].1) == k {
            n += 1;
        }
        i += 1;
    }
    n
}

/// How many results count as failures: those that failed, and those without contracts.
pub open spec fn failures(v: Seq<VerifiedRow>) -> nat {
    total(v, Standing::Failed) + total(v, Standing::NoContracts)
}

/// How many results count as failures.
pub fn count_failures(v: &Vec<VerifiedRow>) -> (r: usize)
    ensures
        r == failures(v@),
{
    let n: usize = v.len();
    proof {
        law_tallies_add_up(v@, n as int);
    }
    count_of(v, Standing::Failed) + count_of(v, Standing::NoContracts)
}

// ---------------------------------------------------------------------------
// Text for a reader
// ---------------------------------------------------------------------------
/// The report for a reader.
pub struct HumanReport;

impl Printed<HumanReport> for VerifiedRow {
    open spec fn printed(self) -> Seq<char> {
        let s = self.0.file_path@ + "::"@ + self.0.function_name@ + "\n"@;
        let s = match self.1 {
            VerificationResult::Passed { .. } => s + "  ✅ Status: PASSED\n"@,
            VerificationResult::Failed { contract, reason, kind, partial_reason } => {
                let s = s + "  ❌ Status: FAILED\n"@ + report::text_line(
                    "    Contract: "@,
                    contract@,
                ) + report::text_line("    Reason: "@, reason@) + report::text_line(
                    "    Kind: "@,
                    kind.name(),
                );
                match partial_reason {
                    Some(p) => s + report::text_line("    Solver note: "@, p.name()),
                    None => s,
                }
            },
            VerificationResult::Partial { verified, total, reason, partial_reason } => {
                let s = s + "  ⚠️  Status: PARTIAL ("@ + text::decimal(verified as nat) + " of "@
                    + text::decimal(total as nat) + " verified)\n"@;
                let s = match partial_reason {
                    Some(p) => s + report::text_line("    Partial reason: "@, p.name()),
                    None => s,
                };
                match reason {
                    Some(r) => s + report::text_line("    Reason: "@, r@),
                    None => s,
                }
            },
            VerificationResult::NoContracts { section } => s
                + "  ❌ Status: FAILED (no contracts - section "@ + section@
                + "; add to Orange Paper or #[requires]/#[ensures])\n"@,
            VerificationResult::NotImplemented => s + "  ⏳ Status: NOT IMPLEMENTED\n"@,
        };
        s + "\n"@
    }

    fn print(&self) -> (r: String) {
        let mut s = self.0.file_path.as_str().to_owned();
        s.append("::");
        s.append(self.0.function_name.as_str());
        s.append("\n");
        match &self.1 {
            VerificationResult::Passed { .. } => {
                s.append("  ✅ Status: PASSED\n");
            },
            VerificationResult::Failed { contract, reason, kind, partial_reason } => {
                s.append("  ❌ Status: FAILED\n");
                s.append(line_of_text("    Contract: ", contract.as_str()).as_str());
                s.append(line_of_text("    Reason: ", reason.as_str()).as_str());
                s.append(line_of_text("    Kind: ", kind.as_str()).as_str());
                if let Some(p) = partial_reason {
                    s.append(line_of_text("    Solver note: ", p.as_str()).as_str());
                }
            },
            VerificationResult::Partial { verified, total, reason, partial_reason } => {
                s.append("  ⚠️  Status: PARTIAL (");
                s.append(count_text(*verified).as_str());
                s.append(" of ");
                s.append(count_text(*total).as_str());
                s.append(" verified)\n");
                if let Some(p) = partial_reason {
                    s.append(line_of_text("    Partial reason: ", p.as_str()).as_str());
                }
                if let Some(r) = reason {
                    s.append(line_of_text("    Reason: ", r.as_str()).as_str());
                }
            },
            VerificationResult::NoContracts { section } => {
                s.append("  ❌ Status: FAILED (no contracts - section ");
                s.append(section.as_str());
                s.append("; add to Orange Paper or #[requires]/#[ensures])\n");
            },
            VerificationResult::NotImplemented => {
                s.append("  ⏳ Status: NOT IMPLEMENTED\n");
            },
        }
        s.append("\n");
        s
    }
}

/// The results in a word: they failed where one did, they are partial where one is.
pub open spec fn verdict(v: Seq<VerifiedRow>) -> Seq<char> {
    if failures(v) > 0 {
        "FAILED"@
    } else if total(v, Standing::Partial) > 0 {
        "PARTIAL"@
    } else {
        "ok"@
    }
}

/// The results as text for a reader.
pub open spec fn human_text(v: Seq<VerifiedRow>) -> Seq<char> {
    "Running BLVM Spec Lock verification...\n\n"@ + report::all_printed::<HumanReport, VerifiedRow>(
        v,
        v.len() as int,
    ) + "test result: "@ + verdict(v) + ". "@ + text::decimal(total(v, Standing::Passed))
        + " passed; "@ + text::decimal(failures(v)) + " failed; "@ + text::decimal(
        total(v, Standing::Partial),
    ) + " partial; 0 skipped\n"@ + report::count_line("  Functions verified: "@, v.len())
}

/// The results as text for a reader.
pub fn format_human(results: &Vec<VerifiedRow>) -> (r: String)
    ensures
        r@ == human_text(results@),
{
    let mut s = "Running BLVM Spec Lock verification...\n\n".to_owned();
    s.append(print_all::<HumanReport, VerifiedRow>(results).as_str());
    let passed = count_of(results, Standing::Passed);
    let failed = count_failures(results);
    let partial = count_of(results, Standing::Partial);
    s.append("test result: ");
    if failed > 0 {
        s.append("FAILED");
    } else if partial > 0 {
        s.append("PARTIAL");
    } else {
        s.append("ok");
    }
    s.append(". ");
    s.append(count_text(passed).as_str());
    s.append(" passed; ");
    s.append(count_text(failed).as_str());
    s.append(" failed; ");
    s.append(count_text(partial).as_str());
    s.append(" partial; 0 skipped\n");
    s.append(line_of_count("  Functions verified: ", results.len()).as_str());
    s
}

// ---------------------------------------------------------------------------
// JSON
// ---------------------------------------------------------------------------
/// What a function is anchored to: a formula before a constant, and without either the function of its
/// section.
pub open spec fn anchor_kind(f: FunctionToVerify) -> Seq<char> {
    if f.formula_anchor is Some {
        "formula"@
    } else if f.constant_anchor is Some {
        "constant"@
    } else {
        "function"@
    }
}

/// What a function is anchored to.
pub fn verify_row_anchor_kind(func: &FunctionToVerify) -> (r: &'static str)
    ensures
        r@ == anchor_kind(*func),
{
    if func.formula_anchor.is_some() {
        "formula"
    } else if func.constant_anchor.is_some() {
        "constant"
    } else {
        "function"
    }
}

/// An object with one more entry, where there is a text.
pub open spec fn with_text(
    m: Map<Seq<char>, JsonForm>,
    key: Seq<char>,
    s: Option<String>,
) -> Map<Seq<char>, JsonForm> {
    match s {
        Some(x) => m.insert(key, JsonForm::Text(x@)),
        None => m,
    }
}

fn put_if_there(o: &mut Fields, key: &str, s: &Option<String>)
    ensures
        final(o)@ == with_text(old(o)@, key@, *s),
{
    if let Some(x) = s {
        o.put_text(key, x.as_str());
    }
}

/// The report in JSON.
pub struct JsonReport;

/// What a function is, as the entries of an object.
pub open spec fn function_entries(f: FunctionToVerify) -> Map<Seq<char>, JsonForm> {
    let m = map![
        "file"@ => JsonForm::Text(f.file_path@),
        "function"@ => JsonForm::Text(f.function_name@),
    ];
    let m = with_text(m, "section"@, f.section).insert(
        "anchor_kind"@,
        JsonForm::Text(anchor_kind(f)),
    );
    with_text(with_text(m, "formula_anchor"@, f.formula_anchor), "constant_anchor"@, f.constant_anchor)
}

fn start_row(f: &FunctionToVerify) -> (o: Fields)
    ensures
        o@ == function_entries(*f),
{
    let mut o = Fields::new();
    o.put_text("file", f.file_path.as_str());
    o.put_text("function", f.function_name.as_str());
    put_if_there(&mut o, "section", &f.section);
    o.put_text("anchor_kind", verify_row_anchor_kind(f));
    put_if_there(&mut o, "formula_anchor", &f.formula_anchor);
    put_if_there(&mut o, "constant_anchor", &f.constant_anchor);
    o
}

impl Recorded<JsonReport> for VerifiedRow {
    open spec fn recorded(self) -> JsonForm {
        let m = function_entries(self.0);
        JsonForm::Object(
            match self.1 {
                VerificationResult::Passed { .. } => m.insert(
                    "status"@,
                    JsonForm::Text("passed"@),
                ),
                VerificationResult::Failed { contract, reason, kind, partial_reason } => {
                    let d = map!["failure_kind"@ => JsonForm::Text(kind.name())];
                    let d = match partial_reason {
                        Some(p) => d.insert("partial_reason"@, JsonForm::Text(p.name())),
                        None => d,
                    };
                    m.insert("status"@, JsonForm::Text("failed"@)).insert(
                        "contract"@,
                        JsonForm::Text(contract@),
                    ).insert("reason"@, JsonForm::Text(reason@)).insert(
                        "detail"@,
                        JsonForm::Object(d),
                    )
                },
                VerificationResult::Partial { verified, total, reason, partial_reason } => {
                    let m = m.insert("status"@, JsonForm::Text("partial"@)).insert(
                        "verified"@,
                        json::number(verified as nat),
                    ).insert("total"@, json::number(total as nat));
                    let m = with_text(m, "reason"@, reason);
                    match partial_reason {
                        Some(p) => m.insert(
                            "detail"@,
                            JsonForm::Object(map!["partial_reason"@ => JsonForm::Text(p.name())]),
                        ),
                        None => m,
                    }
                },
                VerificationResult::NoContracts { section } => m.insert(
                    "status"@,
                    JsonForm::Text("failed"@),
                ).insert(
                    "reason"@,
                    JsonForm::Text("no contracts (section "@ + section@ + ")"@),
                ),
                VerificationResult::NotImplemented => m.insert(
                    "status"@,
                    JsonForm::Text("not_implemented"@),
                ),
            },
        )
    }

    fn record(&self) -> (r: serde_json::Value) {
        let mut o = start_row(&self.0);
        match &self.1 {
            VerificationResult::Passed { .. } => {
                o.put_text("status", "passed");
            },
            VerificationResult::Failed { contract, reason, kind, partial_reason } => {
                o.put_text("status", "failed");
                o.put_text("contract", contract.as_str());
                o.put_text("reason", reason.as_str());
                let mut d = Fields::new();
                d.put_text("failure_kind", kind.as_str());
                if let Some(p) = partial_reason {
                    d.put_text("partial_reason", p.as_str());
                }
                o.put("detail", d.close());
            },
            VerificationResult::Partial { verified, total, reason, partial_reason } => {
                o.put_text("status", "partial");
                o.put_count("verified", *verified);
                o.put_count("total", *total);
                put_if_there(&mut o, "reason", reason);
                if let Some(p) = partial_reason {
                    let mut d = Fields::new();
                    d.put_text("partial_reason", p.as_str());
                    o.put("detail", d.close());
                }
            },
            VerificationResult::NoContracts { section } => {
                o.put_text("status", "failed");
                let mut s = "no contracts (section ".to_owned();
                s.append(section.as_str());
                s.append(")");
                o.put_text("reason", s.as_str());
            },
            VerificationResult::NotImplemented => {
                o.put_text("status", "not_implemented");
            },
        }
        o.close()
    }
}

/// The tool, as a JSON value.
pub open spec fn tool_json() -> JsonForm {
    JsonForm::Object(
        map!["name"@ => JsonForm::Text("blvm-spec-lock"@), "version"@ => JsonForm::Text(VERSION@)],
    )
}

fn record_tool() -> (r: serde_json::Value)
    ensures
        json::json_content(r) == tool_json(),
{
    let mut o = Fields::new();
    o.put_text("name", "blvm-spec-lock");
    o.put_text("version", VERSION);
    o.close()
}

/// The numbers of the results, as a JSON value.
pub open spec fn summary_json(v: Seq<VerifiedRow>) -> JsonForm {
    JsonForm::Object(
        map![
            "total"@ => json::number(v.len()),
            "passed"@ => json::number(total(v, Standing::Passed)),
            "failed"@ => json::number(total(v, Standing::Failed)),
            "partial"@ => json::number(total(v, Standing::Partial)),
            "no_contracts"@ => json::number(total(v, Standing::NoContracts)),
        ],
    )
}

fn record_summary(v: &Vec<VerifiedRow>) -> (r: serde_json::Value)
    ensures
        json::json_content(r) == summary_json(v@),
{
    let mut o = Fields::new();
    o.put_count("total", v.len());
    o.put_count("passed", count_of(v, Standing::Passed));
    o.put_count("failed", count_of(v, Standing::Failed));
    o.put_count("partial", count_of(v, Standing::Partial));
    o.put_count("no_contracts", count_of(v, Standing::NoContracts));
    o.close()
}

/// The results as a JSON value, with the checks on formulas where they were made.
pub open spec fn verify_json(
    v: Seq<VerifiedRow>,
    formulas: Option<(&FormulaRegistryAnalysis, FormulaVerifyJsonFlags)>,
) -> JsonForm {
    let m = map![
        "report_format"@ => json::number(1),
        "command"@ => JsonForm::Text("verify"@),
        "tool"@ => tool_json(),
        "summary"@ => summary_json(v),
        "results"@ => report::all_recorded::<JsonReport, VerifiedRow>(v),
    ];
    JsonForm::Object(
        match formulas {
            Some(f) => m.insert("formula_registry"@, formulas_json(*f.0, f.1)),
            None => m,
        },
    )
}

proof fn lemma_text_reads_back(m: Map<Seq<char>, JsonForm>, key: Seq<char>, s: Option<String>, d: nat)
    requires
        json::reads_back(JsonForm::Object(m), d),
        d > 0,
    ensures
        json::reads_back(JsonForm::Object(with_text(m, key, s)), d),
{
    if let Some(x) = s {
        json::lemma_object_reads_back(m, key, JsonForm::Text(x@), d);
    }
}

proof fn lemma_row_reads_back(r: VerifiedRow)
    ensures
        json::reads_back(Recorded::<JsonReport>::recorded(r), 2),
{
    reveal_with_fuel(json::reads_back, 3);
    let f = r.0;
    let m = map![
        "file"@ => JsonForm::Text(f.file_path@),
        "function"@ => JsonForm::Text(f.function_name@),
    ];
    assert(json::reads_back(JsonForm::Object(m), 2));
    lemma_text_reads_back(m, "section"@, f.section, 2);
    let m = with_text(m, "section"@, f.section);
    json::lemma_object_reads_back(m, "anchor_kind"@, JsonForm::Text(anchor_kind(f)), 2);
    let m = m.insert("anchor_kind"@, JsonForm::Text(anchor_kind(f)));
    lemma_text_reads_back(m, "formula_anchor"@, f.formula_anchor, 2);
    let m = with_text(m, "formula_anchor"@, f.formula_anchor);
    lemma_text_reads_back(m, "constant_anchor"@, f.constant_anchor, 2);
    let m = function_entries(f);
    assert(json::reads_back(JsonForm::Object(m), 2));
    if let VerificationResult::Partial { verified, total, reason, partial_reason } = r.1 {
        json::lemma_count_reads_back(verified as nat, 1);
        json::lemma_count_reads_back(total as nat, 1);
    }
}

proof fn lemma_tally_bounded(v: Seq<VerifiedRow>, n: int, k: Standing)
    ensures
        0 <= n <= v.len() ==> tally(v, n, k) <= n,
    decreases n,
{
    if n > 0 {
        lemma_tally_bounded(v, n - 1, k);
    }
}

proof fn lemma_phase_tally_bounded(v: Seq<FormulaAnalysisRow>, n: int, k: PhaseKind)
    ensures
        0 <= n <= v.len() ==> phase_tally(v, n, k) <= n,
    decreases n,
{
    if n > 0 {
        lemma_phase_tally_bounded(v, n - 1, k);
    }
}

proof fn lemma_readable_bounded(v: Seq<FormulaAnalysisRow>, n: int)
    ensures
        0 <= n <= v.len() ==> readable(v, n) <= n,
    decreases n,
{
    if n > 0 {
        lemma_readable_bounded(v, n - 1);
    }
}

proof fn lemma_summary_reads_back(v: Seq<VerifiedRow>)
    requires
        v.len() <= usize::MAX,
    ensures
        json::reads_back(summary_json(v), 1),
{
    reveal_with_fuel(json::reads_back, 3);
    let n = v.len() as int;
    lemma_tally_bounded(v, n, Standing::Passed);
    lemma_tally_bounded(v, n, Standing::Failed);
    lemma_tally_bounded(v, n, Standing::Partial);
    lemma_tally_bounded(v, n, Standing::NoContracts);
    assert forall|c: nat| c <= v.len() implies json::reads_back(#[trigger] json::number(c), 0) by {
        json::lemma_count_reads_back(c, 0);
    }
}

proof fn lemma_formula_summary_reads_back(v: Seq<FormulaAnalysisRow>, flags: FormulaVerifyJsonFlags)
    requires
        v.len() <= usize::MAX,
    ensures
        json::reads_back(formula_summary_json(v, flags), 1),
{
    reveal_with_fuel(json::reads_back, 3);
    let n = v.len() as int;
    lemma_readable_bounded(v, n);
    lemma_phase_tally_bounded(v, n, PhaseKind::SatSmokeOk);
    lemma_phase_tally_bounded(v, n, PhaseKind::UnsatContradiction);
    lemma_phase_tally_bounded(v, n, PhaseKind::Unknown);
    lemma_phase_tally_bounded(v, n, PhaseKind::Error);
    lemma_phase_tally_bounded(v, n, PhaseKind::SkippedDueToStatic);
    lemma_phase_tally_bounded(v, n, PhaseKind::SkippedNoZ3Feature);
    assert forall|c: nat| c <= v.len() implies json::reads_back(#[trigger] json::number(c), 0) by {
        json::lemma_count_reads_back(c, 0);
    }
}

proof fn lemma_formulas_read_back(a: FormulaRegistryAnalysis, flags: FormulaVerifyJsonFlags)
    requires
        a.rows@.len() <= usize::MAX,
    ensures
        json::reads_back(formulas_json(a, flags), 4),
{
    reveal_with_fuel(json::reads_back, 3);
    lemma_formula_summary_reads_back(a.rows@, flags);
    json::lemma_reads_back_deeper(formula_summary_json(a.rows@, flags), 1, 3);
    json::lemma_count_reads_back(1, 3);
    assert(json::reads_back(tool_json(), 3));
    let rows = a.rows@.map_values(|x: FormulaAnalysisRow| Recorded::<JsonReport>::recorded(x));
    assert forall|i: int| 0 <= i < rows.len() implies json::reads_back(#[trigger] rows[i], 2) by {
        let r = a.rows@[i];
        assert(json::reads_back(gate_json(r.static_gate), 1));
        assert(json::reads_back(phase_json(r.z3_phase), 1));
    }
    assert(json::reads_back(report::all_recorded::<JsonReport, FormulaAnalysisRow>(a.rows@), 3));
}

proof fn lemma_results_read_back(
    v: Seq<VerifiedRow>,
    formulas: Option<(&FormulaRegistryAnalysis, FormulaVerifyJsonFlags)>,
)
    requires
        v.len() <= usize::MAX,
        formulas matches Some(f) ==> f.0.rows@.len() <= usize::MAX,
    ensures
        json::reads_back(verify_json(v, formulas), 127),
{
    reveal_with_fuel(json::reads_back, 3);
    lemma_summary_reads_back(v);
    json::lemma_reads_back_deeper(summary_json(v), 1, 4);
    json::lemma_count_reads_back(1, 4);
    assert(json::reads_back(tool_json(), 4));
    let rows = v.map_values(|x: VerifiedRow| Recorded::<JsonReport>::recorded(x));
    assert forall|i: int| 0 <= i < rows.len() implies json::reads_back(#[trigger] rows[i], 3) by {
        lemma_row_reads_back(v[i]);
        json::lemma_reads_back_deeper(rows[i], 2, 3);
    }
    assert(json::reads_back(report::all_recorded::<JsonReport, VerifiedRow>(v), 4));
    if let Some(f) = formulas {
        lemma_formulas_read_back(*f.0, f.1);
    }
    assert(json::reads_back(verify_json(v, formulas), 5));
    json::lemma_reads_back_deeper(verify_json(v, formulas), 5, 127);
}

/// The results in JSON. The checks on formulas, where they were made, stand there as the report on
/// formulas by itself. What is read from the text is what was written.
pub fn format_verify_json_report(
    results: &Vec<VerifiedRow>,
    formula_registry: Option<(&FormulaRegistryAnalysis, FormulaVerifyJsonFlags)>,
) -> (r: String)
    ensures
        r@ == json::pretty_or_empty(verify_json(results@, formula_registry)),
        json::holds(r@, verify_json(results@, formula_registry)),
{
    let rows: usize = results.len();
    let formulas: usize = match formula_registry {
        Some((analysis, _)) => analysis.rows.len(),
        None => 0,
    };
    proof {
        lemma_results_read_back(results@, formula_registry);
    }
    let mut o = Fields::new();
    o.put_count("report_format", 1);
    o.put_text("command", "verify");
    o.put("tool", record_tool());
    o.put("summary", record_summary(results));
    o.put("results", record_all::<JsonReport, VerifiedRow>(results));
    if let Some((analysis, flags)) = formula_registry {
        o.put("formula_registry", record_formulas(analysis, flags));
    }
    let v = o.close();
    pretty_text(&v)
}

// ---------------------------------------------------------------------------
// Formulas
// ---------------------------------------------------------------------------
/// What is said of the solver in the report on formulas.
#[derive(Clone, Copy, Debug)]
pub struct FormulaVerifyJsonFlags {
    /// Whether it was to be asked.
    pub z3_sat_requested: bool,
    /// Whether it is there.
    pub cargo_built_with_z3: bool,
}

/// The kinds of what is said of a formula by the solver.
#[derive(Debug, Clone, Copy, PartialEq, Eq, Structural)]
pub enum PhaseKind {
    NotRequested,
    SkippedDueToStatic,
    SkippedNoZ3Feature,
    SatSmokeOk,
    UnsatContradiction,
    Unknown,
    Error,
}

/// The kind of what is said of a formula by the solver.
pub open spec fn phase_kind(p: Z3FormulaPhase) -> PhaseKind {
    match p {
        Z3FormulaPhase::NotRequested => PhaseKind::NotRequested,
        Z3FormulaPhase::SkippedDueToStatic => PhaseKind::SkippedDueToStatic,
        Z3FormulaPhase::SkippedNoZ3Feature => PhaseKind::SkippedNoZ3Feature,
        Z3FormulaPhase::SatSmokeOk => PhaseKind::SatSmokeOk,
        Z3FormulaPhase::UnsatContradiction => PhaseKind::UnsatContradiction,
        Z3FormulaPhase::Unknown { .. } => PhaseKind::Unknown,
        Z3FormulaPhase::Error { .. } => PhaseKind::Error,
    }
}

/// The kind of what is said of a formula by the solver.
pub fn kind_of_phase(p: &Z3FormulaPhase) -> (k: PhaseKind)
    ensures
        k == phase_kind(*p),
{
    match p {
        Z3FormulaPhase::NotRequested => PhaseKind::NotRequested,
        Z3FormulaPhase::SkippedDueToStatic => PhaseKind::SkippedDueToStatic,
        Z3FormulaPhase::SkippedNoZ3Feature => PhaseKind::SkippedNoZ3Feature,
        Z3FormulaPhase::SatSmokeOk => PhaseKind::SatSmokeOk,
        Z3FormulaPhase::UnsatContradiction => PhaseKind::UnsatContradiction,
        Z3FormulaPhase::Unknown { .. } => PhaseKind::Unknown,
        Z3FormulaPhase::Error { .. } => PhaseKind::Error,
    }
}

/// On how many of the first `n` formulas the solver said something of a kind.
pub open spec fn phase_tally(v: Seq<FormulaAnalysisRow>, n: int, k: PhaseKind) -> nat
    decreases n,
{
    if n <= 0 || n > v.len() {
        0
    } else if phase_kind(v[n - 1].z3_phase) == k {
        phase_tally(v, n - 1, k) + 1
    } else {
        phase_tally(v, n - 1, k)
    }
}

/// How many of the first `n` formulas can be read.
pub open spec fn readable(v: Seq<FormulaAnalysisRow>, n: int) -> nat
    decreases n,
{
    if n <= 0 || n > v.len() {
        0
    } else if v[n - 1].static_gate is Passed {
        readable(v, n - 1) + 1
    } else {
        readable(v, n - 1)
    }
}

/// What the solver said on formulas falls into the kinds: their numbers add up, and no more formulas
/// can be read than there are.
pub proof fn law_phases_add_up(v: Seq<FormulaAnalysisRow>, n: int)
    requires
        0 <= n <= v.len(),
    ensures
        phase_tally(v, n, PhaseKind::SatSmokeOk) + phase_tally(v, n, PhaseKind::UnsatContradiction)
            + phase_tally(v, n, PhaseKind::Unknown) + phase_tally(v, n, PhaseKind::Error)
            + phase_tally(v, n, PhaseKind::SkippedDueToStatic) + phase_tally(
            v,
            n,
            PhaseKind::SkippedNoZ3Feature,
        ) + phase_tally(v, n, PhaseKind::NotRequested) == n,
        readable(v, n) <= n,
    decreases n,
{
    if n > 0 {
        law_phases_add_up(v, n - 1);
    }
}

/// On how many formulas the solver said something of a kind.
pub fn count_phase(v: &Vec<FormulaAnalysisRow>, k: PhaseKind) -> (r: usize)
    ensures
        r == phase_tally(v@, v@.len() as int, k),
{
    let mut n: usize = 0;
    let mut i: usize = 0;
    while i < v.len()
        invariant
            n <= i <= v@.len(),
            n == phase_tally(v@, i as int, k),
        decreases v@.len() - i,
    {
        if kind_of_phase(&v[i].z3_phase) == k {
            n += 1;
        }
        i += 1;
    }
    n
}

/// How many formulas can be read.
pub fn count_readable(v: &Vec<FormulaAnalysisRow>) -> (r: usize)
    ensures
        r == readable(v@, v@.len() as int),
        r <= v@.len(),
{
    let mut n: usize = 0;
    let mut i: usize = 0;
    while i < v.len()
        invariant
            n <= i <= v@.len(),
            n == readable(v@, i as int),
        decreases v@.len() - i,
    {
        if let FormulaStaticOutcome::Passed = &v[i].static_gate {
            n += 1;
        }
        i += 1;
    }
    n
}

/// Whether a formula can be read, as a JSON value.
pub open spec fn gate_json(g: FormulaStaticOutcome) -> JsonForm {
    JsonForm::Object(
        match g {
            FormulaStaticOutcome::Passed => map![
                "status"@ => JsonForm::Text("passed"@),
                "detail"@ => JsonForm::Null,
            ],
            FormulaStaticOutcome::Failed { message } => map![
                "status"@ => JsonForm::Text("failed"@),
                "detail"@ => JsonForm::Text(message@),
            ],
        },
    )
}

/// What is said by the solver, by a word and where there is one a remark.
pub open spec fn said_json(status: Seq<char>, detail: Option<Seq<char>>) -> JsonForm {
    let m = map!["status"@ => JsonForm::Text(status)];
    JsonForm::Object(
        match detail {
            Some(d) => m.insert("detail"@, JsonForm::Text(d)),
            None => m,
        },
    )
}

/// What the solver said of a formula, as a JSON value.
pub open spec fn phase_json(p: Z3FormulaPhase) -> JsonForm {
    match p {
        Z3FormulaPhase::NotRequested => JsonForm::Null,
        Z3FormulaPhase::SkippedDueToStatic => said_json("skipped_static_gate_failed"@, None),
        Z3FormulaPhase::SkippedNoZ3Feature => said_json(
            "skipped_no_z3_build"@,
            Some("cargo-spec-lock binary built without `--features z3`"@),
        ),
        Z3FormulaPhase::SatSmokeOk => said_json("sat"@, None),
        Z3FormulaPhase::UnsatContradiction => said_json(
            "unsat"@,
            Some(
                "formula unsatisfiable under LaTeX→Rust→Z3 translation (e.g. contradiction)"@,
            ),
        ),
        Z3FormulaPhase::Unknown { reason } => said_json("unknown"@, Some(reason@)),
        Z3FormulaPhase::Error { message } => said_json("error"@, Some(message@)),
    }
}

fn record_said(status: &str, detail: Option<&str>) -> (r: serde_json::Value)
    ensures
        json::json_content(r) == said_json(
            status@,
            match detail {
                Some(d) => Some(d@),
                None => None,
            },
        ),
{
    let mut o = Fields::new();
    o.put_text("status", status);
    if let Some(d) = detail {
        o.put_text("detail", d);
    }
    o.close()
}

fn record_gate(g: &FormulaStaticOutcome) -> (r: serde_json::Value)
    ensures
        json::json_content(r) == gate_json(*g),
{
    let mut o = Fields::new();
    match g {
        FormulaStaticOutcome::Passed => {
            o.put_text("status", "passed");
            o.put("detail", null());
        },
        FormulaStaticOutcome::Failed { message } => {
            o.put_text("status", "failed");
            o.put("detail", word(message.as_str()));
        },
    }
    o.close()
}

/// What the solver said of a formula, as a JSON value.
pub fn formula_z3_phase_json(p: &Z3FormulaPhase) -> (r: serde_json::Value)
    ensures
        json::json_content(r) == phase_json(*p),
{
    match p {
        Z3FormulaPhase::NotRequested => null(),
        Z3FormulaPhase::SkippedDueToStatic => record_said("skipped_static_gate_failed", None),
        Z3FormulaPhase::SkippedNoZ3Feature => record_said(
            "skipped_no_z3_build",
            Some("cargo-spec-lock binary built without `--features z3`"),
        ),
        Z3FormulaPhase::SatSmokeOk => record_said("sat", None),
        Z3FormulaPhase::UnsatContradiction => record_said(
            "unsat",
            Some("formula unsatisfiable under LaTeX→Rust→Z3 translation (e.g. contradiction)"),
        ),
        Z3FormulaPhase::Unknown { reason } => record_said("unknown", Some(reason.as_str())),
        Z3FormulaPhase::Error { message } => record_said("error", Some(message.as_str())),
    }
}

impl Recorded<JsonReport> for FormulaAnalysisRow {
    open spec fn recorded(self) -> JsonForm {
        JsonForm::Object(
            map![
                "formula_id"@ => JsonForm::Text(self.formula_id@),
                "section"@ => JsonForm::Text(self.section@),
                "static"@ => gate_json(self.static_gate),
                "z3_sat"@ => phase_json(self.z3_phase),
            ],
        )
    }

    fn record(&self) -> (r: serde_json::Value) {
        let mut o = Fields::new();
        o.put_text("formula_id", self.formula_id.as_str());
        o.put_text("section", self.section.as_str());
        o.put("static", record_gate(&self.static_gate));
        o.put("z3_sat", formula_z3_phase_json(&self.z3_phase));
        o.close()
    }
}

/// The numbers of the report on formulas, as a JSON value.
pub open spec fn formula_summary_json(v: Seq<FormulaAnalysisRow>, flags: FormulaVerifyJsonFlags) -> JsonForm {
    let n = v.len() as int;
    JsonForm::Object(
        map![
            "total"@ => json::number(v.len()),
            "static_pass"@ => json::number(readable(v, n)),
            "static_fail"@ => json::number((v.len() - readable(v, n)) as nat),
            "z3_sat_requested"@ => JsonForm::Truth(flags.z3_sat_requested),
            "z3_sat_build_available"@ => JsonForm::Truth(flags.cargo_built_with_z3),
            "z3_sat_effective"@ => JsonForm::Truth(
                flags.z3_sat_requested && flags.cargo_built_with_z3,
            ),
            "z3_sat_pass"@ => json::number(phase_tally(v, n, PhaseKind::SatSmokeOk)),
            "z3_sat_unsat"@ => json::number(phase_tally(v, n, PhaseKind::UnsatContradiction)),
            "z3_sat_unknown"@ => json::number(phase_tally(v, n, PhaseKind::Unknown)),
            "z3_sat_error"@ => json::number(phase_tally(v, n, PhaseKind::Error)),
            "z3_skipped_due_to_static"@ => json::number(
                phase_tally(v, n, PhaseKind::SkippedDueToStatic),
            ),
            "z3_skipped_no_z3_build"@ => json::number(
                phase_tally(v, n, PhaseKind::SkippedNoZ3Feature),
            ),
        ],
    )
}

fn record_formula_summary(v: &Vec<FormulaAnalysisRow>, flags: FormulaVerifyJsonFlags) -> (r:
    serde_json::Value)
    ensures
        json::json_content(r) == formula_summary_json(v@, flags),
{
    let pass = count_readable(v);
    let mut o = Fields::new();
    o.put_count("total", v.len());
    o.put_count("static_pass", pass);
    o.put_count("static_fail", v.len() - pass);
    o.put_truth("z3_sat_requested", flags.z3_sat_requested);
    o.put_truth("z3_sat_build_available", flags.cargo_built_with_z3);
    o.put_truth("z3_sat_effective", flags.z3_sat_requested && flags.cargo_built_with_z3);
    o.put_count("z3_sat_pass", count_phase(v, PhaseKind::SatSmokeOk));
    o.put_count("z3_sat_unsat", count_phase(v, PhaseKind::UnsatContradiction));
    o.put_count("z3_sat_unknown", count_phase(v, PhaseKind::Unknown));
    o.put_count("z3_sat_error", count_phase(v, PhaseKind::Error));
    o.put_count("z3_skipped_due_to_static", count_phase(v, PhaseKind::SkippedDueToStatic));
    o.put_count("z3_skipped_no_z3_build", count_phase(v, PhaseKind::SkippedNoZ3Feature));
    o.close()
}

/// The report on formulas as a JSON value.
pub open spec fn formulas_json(a: FormulaRegistryAnalysis, flags: FormulaVerifyJsonFlags) -> JsonForm {
    JsonForm::Object(
        map![
            "report_format"@ => json::number(1),
            "command"@ => JsonForm::Text("verify-formulas"@),
            "tool"@ => tool_json(),
            "summary"@ => formula_summary_json(a.rows@, flags),
            "results"@ => report::all_recorded::<JsonReport, FormulaAnalysisRow>(a.rows@),
        ],
    )
}

fn record_formulas(a: &FormulaRegistryAnalysis, flags: FormulaVerifyJsonFlags) -> (r:
    serde_json::Value)
    ensures
        json::json_content(r) == formulas_json(*a, flags),
{
    let mut o = Fields::new();
    o.put_count("report_format", 1);
    o.put_text("command", "verify-formulas");
    o.put("tool", record_tool());
    o.put("summary", record_formula_summary(&a.rows, flags));
    o.put("results", record_all::<JsonReport, FormulaAnalysisRow>(&a.rows));
    o.close()
}

/// The report on formulas in JSON. What is read from the text is what was written.
pub fn format_formula_verify_json_report(
    analysis: &FormulaRegistryAnalysis,
    flags: FormulaVerifyJsonFlags,
) -> (r: String)
    ensures
        r@ == json::pretty_or_empty(formulas_json(*analysis, flags)),
        json::holds(r@, formulas_json(*analysis, flags)),
{
    let rows: usize = analysis.rows.len();
    proof {
        assert(rows == analysis.rows@.len());
        lemma_formulas_read_back(*analysis, flags);
        json::lemma_reads_back_deeper(formulas_json(*analysis, flags), 4, 127);
    }
    let v = record_formulas(analysis, flags);
    pretty_text(&v)
}

/// A formula in the report for a reader: what was found when it was read.
pub open spec fn gate_words(g: FormulaStaticOutcome) -> Seq<char> {
    match g {
        FormulaStaticOutcome::Passed => "static PASS"@,
        FormulaStaticOutcome::Failed { message } => "static FAIL ("@ + message@ + ")"@,
    }
}

/// A formula in the report for a reader: what the solver said.
pub open spec fn phase_words(p: Z3FormulaPhase) -> Seq<char> {
    match p {
        Z3FormulaPhase::NotRequested => "Z3 (not requested)"@,
        Z3FormulaPhase::SkippedDueToStatic => "Z3 skipped (static FAIL)"@,
        Z3FormulaPhase::SkippedNoZ3Feature => "Z3 skipped (no **`z3`** build)"@,
        Z3FormulaPhase::SatSmokeOk => "Z3 SAT smoke OK"@,
        Z3FormulaPhase::UnsatContradiction => "Z3 UNSAT (contradiction)"@,
        Z3FormulaPhase::Unknown { reason } => "Z3 unknown ("@ + reason@ + ")"@,
        Z3FormulaPhase::Error { message } => "Z3 error ("@ + message@ + ")"@,
    }
}

/// A formula in the report for a reader.
pub open spec fn formula_words(row: FormulaAnalysisRow) -> Seq<char> {
    row.formula_id@ + " §"@ + row.section@ + " · "@ + gate_words(row.static_gate) + " · "@
        + phase_words(row.z3_phase)
}

/// A formula in the report for a reader.
pub fn formula_row_human_summary(row: &FormulaAnalysisRow) -> (r: String)
    ensures
        r@ == formula_words(*row),
{
    let gate = match &row.static_gate {
        FormulaStaticOutcome::Passed => "static PASS".to_owned(),
        FormulaStaticOutcome::Failed { message } => text::cat3("static FAIL (", message.as_str(), ")"),
    };
    let phase = match &row.z3_phase {
        Z3FormulaPhase::NotRequested => "Z3 (not requested)".to_owned(),
        Z3FormulaPhase::SkippedDueToStatic => "Z3 skipped (static FAIL)".to_owned(),
        Z3FormulaPhase::SkippedNoZ3Feature => "Z3 skipped (no **`z3`** build)".to_owned(),
        Z3FormulaPhase::SatSmokeOk => "Z3 SAT smoke OK".to_owned(),
        Z3FormulaPhase::UnsatContradiction => "Z3 UNSAT (contradiction)".to_owned(),
        Z3FormulaPhase::Unknown { reason } => text::cat3("Z3 unknown (", reason.as_str(), ")"),
        Z3FormulaPhase::Error { message } => text::cat3("Z3 error (", message.as_str(), ")"),
    };
    let mut s = row.formula_id.as_str().to_owned();
    s.append(" §");
    s.append(row.section.as_str());
    s.append(" · ");
    s.append(gate.as_str());
    s.append(" · ");
    s.append(phase.as_str());
    s
}

impl Printed<HumanReport> for FormulaAnalysisRow {
    open spec fn printed(self) -> Seq<char> {
        report::text_line("  "@, formula_words(self))
    }

    fn print(&self) -> (r: String) {
        let line = formula_row_human_summary(self);
        line_of_text("  ", line.as_str())
    }
}

/// The report on formulas for a reader.
pub open spec fn formulas_text(a: FormulaRegistryAnalysis, z3_requested: bool) -> Seq<char> {
    let s =
        "verify-formulas: merged **`Formula` (`F_*`)** registry (static LaTeX → Rust enrich/verify gate"@;
    let s = if z3_requested {
        s + "; Z3 **SAT smoke** when built with **`z3`**"@
    } else {
        s
    };
    let s = s + ")\n"@ + "\n"@;
    let n = a.rows@.len();
    if n == 0 {
        s
            + "  (no **`F_*`** formulas in merged spec — ingest enabled via **`SPEC_LOCK_FORMULAS`**)\n"@
            + "\n"@ + "summary: 0 **`F_*`** rows\n"@
    } else {
        s + report::all_printed::<HumanReport, FormulaAnalysisRow>(a.rows@, n as int) + "\n"@
            + "summary: "@ + text::decimal(n) + " **`F_*`** · static_pass="@ + text::decimal(
            readable(a.rows@, n as int),
        ) + " · static_fail="@ + text::decimal((n - readable(a.rows@, n as int)) as nat) + "\n"@
    }
}

/// The report on formulas for a reader.
pub fn format_formula_verify_human(analysis: &FormulaRegistryAnalysis, z3_requested: bool) -> (r:
    String)
    ensures
        r@ == formulas_text(*analysis, z3_requested),
{
    let mut s =
        "verify-formulas: merged **`Formula` (`F_*`)** registry (static LaTeX → Rust enrich/verify gate".to_owned();
    if z3_requested {
        s.append("; Z3 **SAT smoke** when built with **`z3`**");
    }
    s.append(")\n");
    s.append("\n");
    if analysis.rows.len() == 0 {
        s.append(
            "  (no **`F_*`** formulas in merged spec — ingest enabled via **`SPEC_LOCK_FORMULAS`**)\n",
        );
        s.append("\n");
        s.append("summary: 0 **`F_*`** rows\n");
        return s;
    }
    let pass = count_readable(&analysis.rows);
    s.append(print_all::<HumanReport, FormulaAnalysisRow>(&analysis.rows).as_str());
    s.append("\n");
    s.append("summary: ");
    s.append(count_text(analysis.rows.len()).as_str());
    s.append(" **`F_*`** · static_pass=");
    s.append(count_text(pass).as_str());
    s.append(" · static_fail=");
    s.append(count_text(analysis.rows.len() - pass).as_str());
    s.append("\n");
    s
}

// ---------------------------------------------------------------------------
// The names of files
// ---------------------------------------------------------------------------
/// The last of the first `n` parts of a path that is neither empty nor the directory itself.
pub open spec fn last_name(parts: Seq<Seq<char>>, n: int) -> Option<Seq<char>>
    decreases n,
{
    if n <= 0 || n > parts.len() {
        None
    } else if parts[n - 1] == ""@ || parts[n - 1] == "."@ {
        last_name(parts, n - 1)
    } else {
        Some(parts[n - 1])
    }
}

/// The name of the file at a path. A path that ends in the directory above has none.
pub open spec fn file_name(path: Seq<char>) -> Option<Seq<char>> {
    let parts = text::parts(path, "/"@);
    match last_name(parts, parts.len() as int) {
        Some(s) if s != ".."@ => Some(s),
        _ => None,
    }
}

/// A name without what follows its last dot. A name with no dot, or only one at its beginning, stays.
pub open spec fn stem(name: Seq<char>) -> Seq<char> {
    match text::rfind(name, '.') {
        Some(i) if i > 0 => name.take(i),
        _ => name,
    }
}

/// The name of the file at a path, or `unknown`.
pub open spec fn file_name_or_unknown(path: Seq<char>) -> Seq<char> {
    match file_name(path) {
        Some(s) => s,
        None => "unknown"@,
    }
}

/// The name of the file at a path without what follows its last dot, or `unknown`.
pub open spec fn file_stem_or_unknown(path: Seq<char>) -> Seq<char> {
    match file_name(path) {
        Some(s) => stem(s),
        None => "unknown"@,
    }
}

/// The name of the file at a path.
#[verifier::loop_isolation(false)]
pub fn name_of_file(path: &str) -> (r: Option<String>)
    ensures
        match r {
            Some(s) => file_name(path@) == Some(s@),
            None => file_name(path@) is None,
        },
{
    proof {
        reveal_strlit("/");
    }
    let parts = split(path, "/");
    let ghost pv = text::views(parts@);
    let mut n: usize = parts.len();
    proof {
        assert(pv.len() == parts@.len());
    }
    while n > 0
        invariant
            n <= parts@.len(),
            last_name(pv, pv.len() as int) == last_name(pv, n as int),
        decreases n,
    {
        proof {
            assert(pv[n - 1] == parts@[n - 1]@);
        }
        let p = parts[n - 1].as_str();
        if !same(p, "") && !same(p, ".") {
            if same(p, "..") {
                return None;
            }
            return Some(p.to_owned());
        }
        n -= 1;
    }
    None
}

/// A name without what follows its last dot.
pub fn stem_of(name: &str) -> (r: String)
    ensures
        r@ == stem(name@),
{
    let v = to_chars(name);
    match rfind_pos(v.as_slice(), '.') {
        Some(i) => {
            if i > 0 {
                proof {
                    assert(name@.subrange(0, i as int) =~= name@.take(i as int));
                }
                from_range(v.as_slice(), 0, i)
            } else {
                name.to_owned()
            }
        },
        None => name.to_owned(),
    }
}

// ---------------------------------------------------------------------------
// JUnit XML
// ---------------------------------------------------------------------------
/// The report in JUnit XML.
pub struct JunitReport;

/// A text in which quotes do not end an attribute.
pub open spec fn escaped(s: Seq<char>) -> Seq<char> {
    text::replaced(s, "\""@, "&quot;"@)
}

/// A text in which quotes do not end an attribute.
pub fn escape(s: &str) -> (r: String)
    ensures
        r@ == escaped(s@),
{
    proof {
        reveal_strlit("\"");
    }
    replace(s, "\"", "&quot;")
}

/// The kind of a result as an attribute.
pub open spec fn status_attribute(k: Standing) -> Seq<char> {
    match k {
        Standing::Passed => ""@,
        Standing::Failed => " status=\"failed\""@,
        Standing::Partial => " status=\"partial\""@,
        Standing::NoContracts => " status=\"failed\""@,
        Standing::NotImplemented => " status=\"not_implemented\""@,
    }
}

/// What is said of a failure.
pub open spec fn failure_words(r: VerificationResult) -> Seq<char> {
    match r {
        VerificationResult::Failed { contract, kind, partial_reason, .. } => {
            let s = "contract: "@ + contract@ + "; kind: "@ + kind.name();
            match partial_reason {
                Some(p) => s + "; partial_reason="@ + p.name(),
                None => s,
            }
        },
        VerificationResult::Partial { verified, total, reason, partial_reason } => {
            let s = "partial "@ + text::decimal(verified as nat) + "/"@ + text::decimal(
                total as nat,
            );
            let s = match partial_reason {
                Some(p) => s + "; partial_reason="@ + p.name(),
                None => s,
            };
            match reason {
                Some(x) => s + "; "@ + x@,
                None => s,
            }
        },
        _ => ""@,
    }
}

/// What is said of a failure.
pub fn words_of_failure(r: &VerificationResult) -> (s: String)
    ensures
        s@ == failure_words(*r),
{
    match r {
        VerificationResult::Failed { contract, kind, partial_reason, .. } => {
            let mut s = "contract: ".to_owned();
            s.append(contract.as_str());
            s.append("; kind: ");
            s.append(kind.as_str());
            if let Some(p) = partial_reason {
                s.append("; partial_reason=");
                s.append(p.as_str());
            }
            s
        },
        VerificationResult::Partial { verified, total, reason, partial_reason } => {
            let mut s = "partial ".to_owned();
            s.append(count_text(*verified).as_str());
            s.append("/");
            s.append(count_text(*total).as_str());
            if let Some(p) = partial_reason {
                s.append("; partial_reason=");
                s.append(p.as_str());
            }
            if let Some(x) = reason {
                s.append("; ");
                s.append(x.as_str());
            }
            s
        },
        _ => "".to_owned(),
    }
}

impl Printed<JunitReport> for VerifiedRow {
    open spec fn printed(self) -> Seq<char> {
        let s = "    <testcase name=\""@ + self.0.function_name@ + "\" classname=\""@
            + file_stem_or_unknown(self.0.file_path@) + "\""@ + status_attribute(standing(self.1))
            + ">\n"@;
        let s = match self.0.section {
            Some(x) => s + "      <properties>\n        <property name=\"section\" value=\""@ + x@
                + "\"/>\n      </properties>\n"@,
            None => s,
        };
        let s = match self.1 {
            VerificationResult::Failed { reason, .. } => s + "      <failure message=\""@ + escaped(
                reason@,
            ) + "\">"@ + escaped(failure_words(self.1)) + "</failure>\n"@,
            VerificationResult::Partial { .. } => s + "      <system-out>"@ + escaped(
                failure_words(self.1),
            ) + "</system-out>\n"@,
            _ => s,
        };
        s + "    </testcase>\n"@
    }

    fn print(&self) -> (r: String) {
        let class = match name_of_file(self.0.file_path.as_str()) {
            Some(x) => stem_of(x.as_str()),
            None => "unknown".to_owned(),
        };
        let status = match standing_of(&self.1) {
            Standing::Passed => "",
            Standing::Failed => " status=\"failed\"",
            Standing::Partial => " status=\"partial\"",
            Standing::NoContracts => " status=\"failed\"",
            Standing::NotImplemented => " status=\"not_implemented\"",
        };
        let mut s = "    <testcase name=\"".to_owned();
        s.append(self.0.function_name.as_str());
        s.append("\" classname=\"");
        s.append(class.as_str());
        s.append("\"");
        s.append(status);
        s.append(">\n");
        if let Some(x) = &self.0.section {
            s.append("      <properties>\n        <property name=\"section\" value=\"");
            s.append(x.as_str());
            s.append("\"/>\n      </properties>\n");
        }
        match &self.1 {
            VerificationResult::Failed { reason, .. } => {
                s.append("      <failure message=\"");
                s.append(escape(reason.as_str()).as_str());
                s.append("\">");
                s.append(escape(words_of_failure(&self.1).as_str()).as_str());
                s.append("</failure>\n");
            },
            VerificationResult::Partial { .. } => {
                s.append("      <system-out>");
                s.append(escape(words_of_failure(&self.1).as_str()).as_str());
                s.append("</system-out>\n");
            },
            _ => {},
        }
        s.append("    </testcase>\n");
        s
    }
}

/// The beginning of a suite of tests.
pub open spec fn suite_start(label: Seq<char>, tests: nat, failed: nat) -> Seq<char> {
    label + text::decimal(tests) + "\" failures=\""@ + text::decimal(failed) + "\" time=\"0.0\">\n"@
}

/// The beginning of a suite of tests.
pub fn start_of_suite(label: &str, tests: usize, failed: usize) -> (r: String)
    ensures
        r@ == suite_start(label@, tests as nat, failed as nat),
{
    let mut s = label.to_owned();
    s.append(count_text(tests).as_str());
    s.append("\" failures=\"");
    s.append(count_text(failed).as_str());
    s.append("\" time=\"0.0\">\n");
    s
}

/// The results in JUnit XML.
pub open spec fn junit_text(v: Seq<VerifiedRow>) -> Seq<char> {
    "<?xml version=\"1.0\" encoding=\"UTF-8\"?>\n"@ + suite_start(
        "<testsuites name=\"blvm-spec-lock\" tests=\""@,
        v.len(),
        failures(v),
    ) + suite_start("  <testsuite name=\"verification\" tests=\""@, v.len(), failures(v))
        + report::all_printed::<JunitReport, VerifiedRow>(v, v.len() as int) + "  </testsuite>\n"@
        + "</testsuites>\n"@
}

/// The results in JUnit XML.
pub fn format_junit(results: &Vec<VerifiedRow>) -> (r: String)
    ensures
        r@ == junit_text(results@),
{
    let failed = count_failures(results);
    let mut s = "<?xml version=\"1.0\" encoding=\"UTF-8\"?>\n".to_owned();
    s.append(
        start_of_suite(
            "<testsuites name=\"blvm-spec-lock\" tests=\"",
            results.len(),
            failed,
        ).as_str(),
    );
    s.append(
        start_of_suite("  <testsuite name=\"verification\" tests=\"", results.len(), failed).as_str(),
    );
    s.append(print_all::<JunitReport, VerifiedRow>(results).as_str());
    s.append("  </testsuite>\n");
    s.append("</testsuites>\n");
    s
}

// ---------------------------------------------------------------------------
// Markdown
// ---------------------------------------------------------------------------
/// The table of results in Markdown.
pub struct MarkdownTable;

/// The failures in Markdown.
pub struct MarkdownFailures;

/// A result in a cell of the table.
pub open spec fn status_cell(r: VerificationResult) -> Seq<char> {
    match r {
        VerificationResult::Passed { .. } => "✅ Passed"@,
        VerificationResult::Failed { kind, partial_reason, .. } => {
            let s = "❌ Failed ["@ + kind.name() + "]"@;
            match partial_reason {
                Some(p) if kind == FailureKind::SolverUnknown => s + " ("@ + p.name() + ")"@,
                _ => s,
            }
        },
        VerificationResult::Partial { verified, total, reason, partial_reason } => {
            let s = "⚠️ Partial ("@ + text::decimal(verified as nat) + "/"@ + text::decimal(
                total as nat,
            ) + ")"@;
            let s = match partial_reason {
                Some(p) => s + " ["@ + p.name() + "]"@,
                None => s,
            };
            match reason {
                Some(x) => s + ": "@ + x@,
                None => s,
            }
        },
        VerificationResult::NoContracts { section } => "❌ Failed (no contracts §"@ + section@
            + ")"@,
        VerificationResult::NotImplemented => "⏳ Not Implemented"@,
    }
}

/// A result in a cell of the table.
pub fn cell_of_status(r: &VerificationResult) -> (s: String)
    ensures
        s@ == status_cell(*r),
{
    match r {
        VerificationResult::Passed { .. } => "✅ Passed".to_owned(),
        VerificationResult::Failed { kind, partial_reason, .. } => {
            let mut s = "❌ Failed [".to_owned();
            s.append(kind.as_str());
            s.append("]");
            if *kind == FailureKind::SolverUnknown {
                if let Some(p) = partial_reason {
                    s.append(" (");
                    s.append(p.as_str());
                    s.append(")");
                }
            }
            s
        },
        VerificationResult::Partial { verified, total, reason, partial_reason } => {
            let mut s = "⚠️ Partial (".to_owned();
            s.append(count_text(*verified).as_str());
            s.append("/");
            s.append(count_text(*total).as_str());
            s.append(")");
            if let Some(p) = partial_reason {
                s.append(" [");
                s.append(p.as_str());
                s.append("]");
            }
            if let Some(x) = reason {
                s.append(": ");
                s.append(x.as_str());
            }
            s
        },
        VerificationResult::NoContracts { section } => {
            let mut s = "❌ Failed (no contracts §".to_owned();
            s.append(section.as_str());
            s.append(")");
            s
        },
        VerificationResult::NotImplemented => "⏳ Not Implemented".to_owned(),
    }
}

impl Printed<MarkdownTable> for VerifiedRow {
    open spec fn printed(self) -> Seq<char> {
        "| `"@ + file_name_or_unknown(self.0.file_path@) + "` | `"@ + self.0.function_name@ + "` | "@
            + (match self.0.section {
            Some(x) => x@,
            None => "-"@,
        }) + " | "@ + status_cell(self.1) + " |\n"@
    }

    fn print(&self) -> (r: String) {
        let name = match name_of_file(self.0.file_path.as_str()) {
            Some(x) => x,
            None => "unknown".to_owned(),
        };
        let mut s = "| `".to_owned();
        s.append(name.as_str());
        s.append("` | `");
        s.append(self.0.function_name.as_str());
        s.append("` | ");
        match &self.0.section {
            Some(x) => {
                s.append(x.as_str());
            },
            None => {
                s.append("-");
            },
        }
        s.append(" | ");
        s.append(cell_of_status(&self.1).as_str());
        s.append(" |\n");
        s
    }
}

/// The heading of a failure.
pub open spec fn failure_heading(f: FunctionToVerify) -> Seq<char> {
    "### `"@ + f.file_path@ + "::"@ + f.function_name@ + "`\n\n"@
}

fn heading_of_failure(f: &FunctionToVerify) -> (r: String)
    ensures
        r@ == failure_heading(*f),
{
    let mut s = "### `".to_owned();
    s.append(f.file_path.as_str());
    s.append("::");
    s.append(f.function_name.as_str());
    s.append("`\n\n");
    s
}

impl Printed<MarkdownFailures> for VerifiedRow {
    open spec fn printed(self) -> Seq<char> {
        match self.1 {
            VerificationResult::Failed { contract, reason, kind, partial_reason } => {
                let s = failure_heading(self.0) + report::text_line("- **Contract:** "@, contract@)
                    + report::text_line("- **Reason:** "@, reason@) + report::text_line(
                    "- **Failure kind:** "@,
                    kind.name(),
                );
                let s = match partial_reason {
                    Some(p) => s + report::text_line("- **Solver note:** "@, p.name()),
                    None => s,
                };
                s + "\n"@
            },
            VerificationResult::NoContracts { section } => failure_heading(self.0)
                + "- **Reason:** no contracts (section "@ + section@ + ")\n\n"@,
            _ => ""@,
        }
    }

    fn print(&self) -> (r: String) {
        match &self.1 {
            VerificationResult::Failed { contract, reason, kind, partial_reason } => {
                let mut s = heading_of_failure(&self.0);
                s.append(line_of_text("- **Contract:** ", contract.as_str()).as_str());
                s.append(line_of_text("- **Reason:** ", reason.as_str()).as_str());
                s.append(line_of_text("- **Failure kind:** ", kind.as_str()).as_str());
                if let Some(p) = partial_reason {
                    s.append(line_of_text("- **Solver note:** ", p.as_str()).as_str());
                }
                s.append("\n");
                s
            },
            VerificationResult::NoContracts { section } => {
                let mut s = heading_of_failure(&self.0);
                s.append("- **Reason:** no contracts (section ");
                s.append(section.as_str());
                s.append(")\n\n");
                s
            },
            _ => "".to_owned(),
        }
    }
}

/// A label, a count and a mark on a line.
pub open spec fn marked_line(label: Seq<char>, n: nat, mark: Seq<char>) -> Seq<char> {
    label + text::decimal(n) + mark
}

fn line_with_mark(label: &str, n: usize, mark: &str) -> (r: String)
    ensures
        r@ == marked_line(label@, n as nat, mark@),
{
    let mut s = label.to_owned();
    s.append(count_text(n).as_str());
    s.append(mark);
    s
}

/// The results in Markdown.
pub open spec fn markdown_text(v: Seq<VerifiedRow>) -> Seq<char> {
    let s = "# BLVM Spec Lock Verification Report\n\n"@ + "**Generated:** Verification Report\n\n"@
        + "## Summary\n\n"@ + report::count_line("- **Total Functions:** "@, v.len()) + marked_line(
        "- **Passed:** "@,
        total(v, Standing::Passed),
        " ✅\n"@,
    ) + marked_line("- **Failed:** "@, failures(v), " ❌\n"@) + marked_line(
        "- **Partial:** "@,
        total(v, Standing::Partial),
        " ⚠️\n\n"@,
    ) + "## Results\n\n"@ + "| File | Function | Section | Status |\n"@
        + "|------|----------|---------|--------|\n"@ + report::all_printed::<
        MarkdownTable,
        VerifiedRow,
    >(v, v.len() as int);
    if failures(v) > 0 {
        s + "\n## Failed Verifications\n\n"@ + report::all_printed::<MarkdownFailures, VerifiedRow>(
            v,
            v.len() as int,
        )
    } else {
        s
    }
}

/// The results in Markdown.
pub fn format_markdown(results: &Vec<VerifiedRow>) -> (r: String)
    ensures
        r@ == markdown_text(results@),
{
    let failed = count_failures(results);
    let mut s = "# BLVM Spec Lock Verification Report\n\n".to_owned();
    s.append("**Generated:** Verification Report\n\n");
    s.append("## Summary\n\n");
    s.append(line_of_count("- **Total Functions:** ", results.len()).as_str());
    s.append(
        line_with_mark("- **Passed:** ", count_of(results, Standing::Passed), " ✅\n").as_str(),
    );
    s.append(line_with_mark("- **Failed:** ", failed, " ❌\n").as_str());
    s.append(
        line_with_mark("- **Partial:** ", count_of(results, Standing::Partial), " ⚠️\n\n").as_str(),
    );
    s.append("## Results\n\n");
    s.append("| File | Function | Section | Status |\n");
    s.append("|------|----------|---------|--------|\n");
    s.append(print_all::<MarkdownTable, VerifiedRow>(results).as_str());
    if failed > 0 {
        s.append("\n## Failed Verifications\n\n");
        s.append(print_all::<MarkdownFailures, VerifiedRow>(results).as_str());
    }
    s
}

// ---------------------------------------------------------------------------
// By the name of the form
// ---------------------------------------------------------------------------
/// The results in a form by its name. A name that is not known is that of the text for a reader.
pub open spec fn results_text(v: Seq<VerifiedRow>, format: Seq<char>) -> Seq<char> {
    if format == "json"@ {
        json::pretty_or_empty(verify_json(v, None))
    } else if format == "junit"@ {
        junit_text(v)
    } else if format == "markdown"@ {
        markdown_text(v)
    } else {
        human_text(v)
    }
}

/// The results in a form by its name.
pub fn format_results(results: &Vec<VerifiedRow>, format: &str) -> (r: String)
    ensures
        r@ == results_text(results@, format@),
{
    if same(format, "json") {
        format_verify_json_report(results, None)
    } else if same(format, "junit") {
        format_junit(results)
    } else if same(format, "markdown") {
        format_markdown(results)
    } else {
        format_human(results)
    }
}

// ---------------------------------------------------------------------------
// Laws
// ---------------------------------------------------------------------------
proof fn lemma_no_quote(s: Seq<char>)
    ensures
        forall|i: int| 0 <= i < escaped(s).len() ==> #[trigger] escaped(s)[i] != '"',
    decreases s.len(),
{
    reveal_strlit("\"");
    reveal_strlit("&quot;");
    let p = "\""@;
    let w = "&quot;"@;
    match text::find(s, p) {
        None => {
            assert forall|i: int| 0 <= i < s.len() implies s[i] != '"' by {
                if s[i] == '"' {
                    assert(s.subrange(i, i + 1) =~= p);
                    assert(text::occurs_at(s, p, i));
                    text::lemma_find_has(s, p);
                }
            }
            assert(escaped(s) == s);
        },
        Some(at) => {
            text::lemma_find_from(s, p, 0);
            text::lemma_find_has(s, p);
            let rest = s.skip(at + 1);
            lemma_no_quote(rest);
            let front = s.take(at);
            assert forall|i: int| 0 <= i < front.len() implies front[i] != '"' by {
                if front[i] == '"' {
                    assert(s.subrange(i, i + 1) =~= p);
                    assert(text::occurs_at(s, p, i));
                }
            }
            assert(p.len() == 1);
            assert(escaped(s) == front + w + escaped(rest));
            assert forall|i: int| 0 <= i < w.len() implies w[i] != '"' by {}
        },
    }
}

/// No quote is left in a text that goes into an attribute.
pub proof fn law_escaped_text_has_no_quote(s: Seq<char>)
    ensures
        !escaped(s).contains('"'),
{
    lemma_no_quote(s);
}

/// The results fail as a whole exactly where one failed or has no contracts.
pub proof fn law_verdict_is_failed_by_a_failure(v: Seq<VerifiedRow>, n: int)
    requires
        0 <= n <= v.len(),
    ensures
        tally(v, n, Standing::Failed) + tally(v, n, Standing::NoContracts) > 0 <==> exists|i: int|
            0 <= i < n && ((#[trigger] v[i]).1 is Failed || v[i].1 is NoContracts),
        n == v.len() ==> (failures(v) > 0 <==> verdict(v) == "FAILED"@),
    decreases n,
{
    reveal_strlit("FAILED");
    reveal_strlit("PARTIAL");
    reveal_strlit("ok");
    assert("FAILED"@.len() != "PARTIAL"@.len());
    assert("FAILED"@.len() != "ok"@.len());
    if n > 0 {
        law_verdict_is_failed_by_a_failure(v, n - 1);
        if v[n - 1].1 is Failed || v[n - 1].1 is NoContracts {
            assert(tally(v, n, Standing::Failed) + tally(v, n, Standing::NoContracts) > 0);
        }
    }
}

/// What is counted of results is how many of them passed, failed, are partial, have no contracts
/// or are not implemented.
pub proof fn law_results_are_counted(v: Seq<VerifiedRow>, n: int)
    requires
        0 <= n <= v.len(),
    ensures
        tally(v, n, Standing::Passed) == v.take(n).filter(|r: VerifiedRow| r.1 is Passed).len(),
        tally(v, n, Standing::Failed) == v.take(n).filter(|r: VerifiedRow| r.1 is Failed).len(),
        tally(v, n, Standing::Partial) == v.take(n).filter(|r: VerifiedRow| r.1 is Partial).len(),
        tally(v, n, Standing::NoContracts) == v.take(n).filter(|r: VerifiedRow| r.1 is NoContracts).len(),
        tally(v, n, Standing::NotImplemented) == v.take(n).filter(|r: VerifiedRow| r.1 is NotImplemented).len(),
    decreases n,
{
    reveal(Seq::filter);
    if n > 0 {
        law_results_are_counted(v, n - 1);
        assert(v.take(n).drop_last() =~= v.take(n - 1));
        assert(v.take(n).last() == v[n - 1]);
    } else {
        assert(v.take(0) =~= seq![]);
    }
}

/// What is counted of formulas is how many of them can be read, and on how many the solver said what.
pub proof fn law_formulas_are_counted(v: Seq<FormulaAnalysisRow>, n: int)
    requires
        0 <= n <= v.len(),
    ensures
        readable(v, n) == v.take(n).filter(|r: FormulaAnalysisRow| r.static_gate is Passed).len(),
        phase_tally(v, n, PhaseKind::NotRequested) == v.take(n).filter(
            |r: FormulaAnalysisRow| r.z3_phase is NotRequested,
        ).len(),
        phase_tally(v, n, PhaseKind::SkippedDueToStatic) == v.take(n).filter(
            |r: FormulaAnalysisRow| r.z3_phase is SkippedDueToStatic,
        ).len(),
        phase_tally(v, n, PhaseKind::SkippedNoZ3Feature) == v.take(n).filter(
            |r: FormulaAnalysisRow| r.z3_phase is SkippedNoZ3Feature,
        ).len(),
        phase_tally(v, n, PhaseKind::SatSmokeOk) == v.take(n).filter(
            |r: FormulaAnalysisRow| r.z3_phase is SatSmokeOk,
        ).len(),
        phase_tally(v, n, PhaseKind::UnsatContradiction) == v.take(n).filter(
            |r: FormulaAnalysisRow| r.z3_phase is UnsatContradiction,
        ).len(),
        phase_tally(v, n, PhaseKind::Unknown) == v.take(n).filter(
            |r: FormulaAnalysisRow| r.z3_phase is Unknown,
        ).len(),
        phase_tally(v, n, PhaseKind::Error) == v.take(n).filter(
            |r: FormulaAnalysisRow| r.z3_phase is Error,
        ).len(),
    decreases n,
{
    reveal(Seq::filter);
    if n > 0 {
        law_formulas_are_counted(v, n - 1);
        assert(v.take(n).drop_last() =~= v.take(n - 1));
        assert(v.take(n).last() == v[n - 1]);
    } else {
        assert(v.take(0) =~= seq![]);
    }
}

/// The name of a file is what stands behind the last slash.
pub proof fn law_file_name_stands_behind_the_slash(dir: Seq<char>, name: Seq<char>)
    requires
        name.len() > 0,
        forall|i: int| 0 <= i < name.len() ==> name[i] != '/',
        name != "."@,
        name != ".."@,
    ensures
        file_name(dir + "/"@ + name) == Some(name),
        file_name(name) == Some(name),
{
    reveal_strlit("/");
    reveal_strlit("");
    text::lemma_lacks(name, "/"@, 0);
    text::lemma_find_has(name, "/"@);
    assert(text::parts(name, "/"@) == seq![name]);
    text::lemma_parts_of_both(dir, "/"@, name);
    let parts = text::parts(dir + "/"@ + name, "/"@);
    assert(parts.last() == name);
    assert(name.len() != ""@.len());
}

/// A name loses what follows its last dot.
pub proof fn law_stem_ends_at_the_last_dot(front: Seq<char>, ending: Seq<char>)
    requires
        front.len() > 0,
        forall|i: int| 0 <= i < ending.len() ==> ending[i] != '.',
    ensures
        stem(front + seq!['.'] + ending) == front,
{
    let s = front + seq!['.'] + ending;
    lemma_rfind_dot(s, front.len() as int, s.len() as int);
    assert(s.take(front.len() as int) =~= front);
}

proof fn lemma_rfind_dot(s: Seq<char>, at: int, end: int)
    requires
        0 <= at < end <= s.len(),
        s[at] == '.',
        forall|i: int| at < i < end ==> s[i] != '.',
    ensures
        text::rfind_before(s, '.', end) == Some(at),
    decreases end,
{
    if end - 1 > at {
        lemma_rfind_dot(s, at, end - 1);
    }
}

} // verus!
