//! What the commands of the tool decide and say.
use vstd::prelude::*;
use crate::attributes::FunctionToVerify;
use crate::chars;
use crate::chars::to_lowercase;
use crate::drift::DriftResult;
use crate::output;
use crate::output::{count_failures, count_of, Standing, VerifiedRow};
use crate::report;
use crate::report::{line_of_count, line_of_text, print_all, Printed};
use crate::sorting::Ranked;
use crate::text;
use crate::text::{cat, cat3, count_text, decimal_of, same, split, starts_with};
use crate::text_order;
use crate::text_order::{is_before, is_list_before};

verus! {

// ---------------------------------------------------------------------------
// Forms of reports
// ---------------------------------------------------------------------------
/// The forms of reports.
#[derive(Clone, Copy, Debug, PartialEq, Eq, Structural)]
pub enum OutputFormat {
    Human,
    Json,
    Junit,
    Markdown,
}

/// The form with a name in small letters.
pub open spec fn format_named(low: Seq<char>) -> Option<OutputFormat> {
    if low == "human"@ {
        Some(OutputFormat::Human)
    } else if low == "json"@ {
        Some(OutputFormat::Json)
    } else if low == "junit"@ {
        Some(OutputFormat::Junit)
    } else if low == "markdown"@ {
        Some(OutputFormat::Markdown)
    } else {
        None
    }
}

/// The form with a name in small letters.
pub fn find_format(low: &str) -> (r: Option<OutputFormat>)
    ensures
        r == format_named(low@),
{
    if same(low, "human") {
        Some(OutputFormat::Human)
    } else if same(low, "json") {
        Some(OutputFormat::Json)
    } else if same(low, "junit") {
        Some(OutputFormat::Junit)
    } else if same(low, "markdown") {
        Some(OutputFormat::Markdown)
    } else {
        None
    }
}

impl OutputFormat {
    /// The form with a name, whatever the case of its letters.
    pub fn from_str(s: &str) -> (r: Result<OutputFormat, String>)
        ensures
            match r {
                Ok(f) => format_named(chars::unicode_lower(s@)) == Some(f),
                Err(e) => format_named(chars::unicode_lower(s@)) is None && e@
                    == "Unknown format: "@ + s@ + ". Expected: human, json, junit, markdown"@,
            },
    {
        let low = to_lowercase(s);
        match find_format(low.as_str()) {
            Some(f) => Ok(f),
            None => Err(
                cat3("Unknown format: ", s, ". Expected: human, json, junit, markdown"),
            ),
        }
    }

    /// The name of the form.
    pub fn name(self) -> (r: &'static str)
        ensures
            format_named(r@) == Some(self),
    {
        proof {
            reveal_strlit("human");
            reveal_strlit("json");
            reveal_strlit("junit");
            reveal_strlit("markdown");
            assert("human"@.len() == 5 && "json"@.len() == 4);
            assert("junit"@.len() == 5 && "markdown"@.len() == 8);
            assert("human"@[0] == 'h' && "junit"@[0] == 'j');
        }
        match self {
            OutputFormat::Human => "human",
            OutputFormat::Json => "json",
            OutputFormat::Junit => "junit",
            OutputFormat::Markdown => "markdown",
        }
    }
}

// ---------------------------------------------------------------------------
// The order of functions
// ---------------------------------------------------------------------------
/// The part `i` of a path, as the path is ordered by it: the root before the directory itself,
/// before the one above, before names. Empty parts, and the directory itself behind something, do
/// not count.
pub open spec fn part_key(parts: Seq<Seq<char>>, i: int, absolute: bool) -> Option<Seq<char>> {
    if parts[i] == ""@ {
        if i == 0 && absolute {
            Some("0"@)
        } else {
            None
        }
    } else if parts[i] == "."@ {
        if i == 0 {
            Some("1"@)
        } else {
            None
        }
    } else if parts[i] == ".."@ {
        Some("2"@)
    } else {
        Some("3"@ + parts[i])
    }
}

/// The first `n` parts of a path, as it is ordered by them.
pub open spec fn part_keys(parts: Seq<Seq<char>>, n: int, absolute: bool) -> Seq<Seq<char>>
    decreases n,
{
    if n <= 0 || n > parts.len() {
        seq![]
    } else {
        match part_key(parts, n - 1, absolute) {
            Some(k) => part_keys(parts, n - 1, absolute).push(k),
            None => part_keys(parts, n - 1, absolute),
        }
    }
}

/// What a path is ordered by.
pub open spec fn path_keys(path: Seq<char>) -> Seq<Seq<char>> {
    let parts = text::parts(path, "/"@);
    part_keys(parts, parts.len() as int, text::starts(path, "/"@))
}

/// What a path is ordered by.
#[verifier::loop_isolation(false)]
pub fn keys_of_path(path: &str) -> (r: Vec<String>)
    ensures
        text::views(r@) == path_keys(path@),
{
    proof {
        reveal_strlit("/");
    }
    let parts = split(path, "/");
    let absolute = starts_with(path, "/");
    let ghost pv = text::views(parts@);
    let mut out: Vec<String> = Vec::new();
    let mut i: usize = 0;
    proof {
        assert(pv.len() == parts@.len());
        assert(text::views(out@) =~= seq![]);
    }
    while i < parts.len()
        invariant
            i <= parts@.len(),
            text::views(out@) == part_keys(pv, i as int, absolute),
        decreases parts@.len() - i,
    {
        let ghost had = out@;
        proof {
            assert(pv[i as int] == parts@[i as int]@);
        }
        let p = parts[i].as_str();
        let key = if same(p, "") {
            if i == 0 && absolute {
                Some("0".to_owned())
            } else {
                None
            }
        } else if same(p, ".") {
            if i == 0 {
                Some("1".to_owned())
            } else {
                None
            }
        } else if same(p, "..") {
            Some("2".to_owned())
        } else {
            Some(cat("3", p))
        };
        if let Some(k) = key {
            out.push(k);
            proof {
                assert(text::views(out@) =~= text::views(had).push(k@));
            }
        }
        i += 1;
    }
    out
}

/// Whether one function comes before another: by their files, and in one file by their names.
pub open spec fn function_before(a: FunctionToVerify, b: FunctionToVerify) -> bool {
    let x = path_keys(a.file_path@);
    let y = path_keys(b.file_path@);
    text_order::list_before(x, y) || (x == y && text_order::before(
        a.function_name@,
        b.function_name@,
    ))
}

impl Ranked for FunctionToVerify {
    open spec fn precedes(self, other: Self) -> bool {
        function_before(self, other)
    }

    proof fn law_precedes(a: Self, b: Self, c: Self) {
        let x = path_keys(a.file_path@);
        let y = path_keys(b.file_path@);
        let z = path_keys(c.file_path@);
        text_order::law_lists_are_ordered(x, x);
        text_order::law_texts_are_ordered(a.function_name@, a.function_name@);
        if a.precedes(b) && b.precedes(c) {
            if text_order::list_before(x, y) && text_order::list_before(y, z) {
                text_order::law_list_order_is_transitive(x, y, z);
            } else if x == y && y == z {
                text_order::law_text_order_is_transitive(
                    a.function_name@,
                    b.function_name@,
                    c.function_name@,
                );
            }
        }
    }

    fn does_precede(&self, other: &Self) -> (r: bool) {
        let x = keys_of_path(self.file_path.as_str());
        let y = keys_of_path(other.file_path.as_str());
        if is_list_before(&x, &y) {
            return true;
        }
        if is_list_before(&y, &x) {
            proof {
                text_order::law_lists_are_ordered(text::views(x@), text::views(y@));
            }
            return false;
        }
        proof {
            text_order::law_lists_are_ordered(text::views(x@), text::views(y@));
        }
        is_before(self.function_name.as_str(), other.function_name.as_str())
    }
}

// ---------------------------------------------------------------------------
// The list of functions
// ---------------------------------------------------------------------------
/// The list of functions.
pub struct FunctionList;

impl Printed<FunctionList> for FunctionToVerify {
    open spec fn printed(self) -> Seq<char> {
        self.function_name@ + "\t"@ + self.file_path@ + "\t"@ + section_label(self) + "\n"@
    }

    fn print(&self) -> (r: String) {
        let mut s = self.function_name.as_str().to_owned();
        s.append("\t");
        s.append(self.file_path.as_str());
        s.append("\t");
        s.append(label_of_section(self));
        s.append("\n");
        s
    }
}

/// The section of a function in words.
pub open spec fn section_label(f: FunctionToVerify) -> Seq<char> {
    match f.section {
        Some(s) => s@,
        None => "(no section)"@,
    }
}

/// The section of a function in words.
pub fn label_of_section(f: &FunctionToVerify) -> (r: &str)
    ensures
        r@ == section_label(*f),
{
    match &f.section {
        Some(s) => s.as_str(),
        None => "(no section)",
    }
}

/// A line for each function.
pub fn format_list(functions: &Vec<FunctionToVerify>) -> (r: String)
    ensures
        r@ == report::all_printed::<FunctionList, FunctionToVerify>(
            functions@,
            functions@.len() as int,
        ),
{
    print_all::<FunctionList, FunctionToVerify>(functions)
}

// ---------------------------------------------------------------------------
// The summary
// ---------------------------------------------------------------------------
/// How many functions name a section.
#[derive(Debug)]
pub struct SectionCount {
    pub section: String,
    pub functions: usize,
}

/// How many of the first `n` functions have a section in words.
pub open spec fn labelled(fs: Seq<FunctionToVerify>, n: int, label: Seq<char>) -> nat
    decreases n,
{
    if n <= 0 || n > fs.len() {
        0
    } else if section_label(fs[n - 1]) == label {
        labelled(fs, n - 1, label) + 1
    } else {
        labelled(fs, n - 1, label)
    }
}

/// Whether counts are those of the first `n` functions: each section once, in their order, and no
/// other.
pub open spec fn counts_functions(v: Seq<SectionCount>, fs: Seq<FunctionToVerify>, n: int) -> bool {
    &&& forall|i: int, j: int|
        0 <= i < j < v.len() ==> text_order::before(
            (#[trigger] v[i]).section@,
            (#[trigger] v[j]).section@,
        )
    &&& forall|i: int|
        0 <= i < v.len() ==> (#[trigger] v[i]).functions == labelled(fs, n, v[i].section@)
            && v[i].functions > 0
    &&& forall|k: int|
        0 <= k < n ==> exists|i: int|
            0 <= i < v.len() && (#[trigger] v[i]).section@ == section_label(#[trigger] fs[k])
}

proof fn lemma_labelled(fs: Seq<FunctionToVerify>, n: int, label: Seq<char>)
    requires
        0 <= n <= fs.len(),
    ensures
        labelled(fs, n, label) <= n,
        (forall|k: int| 0 <= k < n ==> section_label(#[trigger] fs[k]) != label) ==> labelled(
            fs,
            n,
            label,
        ) == 0,
    decreases n,
{
    if n > 0 {
        lemma_labelled(fs, n - 1, label);
    }
}

fn place_for(v: &Vec<SectionCount>, label: &str) -> (r: usize)
    requires
        forall|i: int, j: int|
            0 <= i < j < v@.len() ==> text_order::before(
                (#[trigger] v@[i]).section@,
                (#[trigger] v@[j]).section@,
            ),
    ensures
        r <= v@.len(),
        forall|i: int| 0 <= i < r ==> text_order::before((#[trigger] v@[i]).section@, label@),
        r < v@.len() ==> !text_order::before(v@[r as int].section@, label@),
{
    let mut i: usize = 0;
    while i < v.len()
        invariant
            i <= v@.len(),
            forall|k: int| 0 <= k < i ==> text_order::before((#[trigger] v@[k]).section@, label@),
        decreases v@.len() - i,
    {
        if !is_before(v[i].section.as_str(), label) {
            return i;
        }
        i += 1;
    }
    i
}

fn count_one(v: &mut Vec<SectionCount>, fs: &Vec<FunctionToVerify>, n: usize)
    requires
        n < fs@.len(),
        counts_functions(old(v)@, fs@, n as int),
    ensures
        counts_functions(final(v)@, fs@, n + 1),
{
    let ghost had = v@;
    let ghost all = fs@;
    let total: usize = fs.len();
    let label = label_of_section(&fs[n]);
    let p = place_for(v, label);
    if p < v.len() && same(v[p].section.as_str(), label) {
        proof {
            lemma_labelled(all, n as int, label@);
            assert(had[p as int].functions == labelled(all, n as int, had[p as int].section@));
            assert(had[p as int].functions <= n < total);
        }
        let m: usize = v[p].functions + 1;
        v[p].functions = m;
        proof {
            let now = v@;
            assert forall|i: int| 0 <= i < now.len() implies (#[trigger] now[i]).section@
                == had[i].section@ by {}
            assert forall|i: int, j: int| 0 <= i < j < now.len() implies text_order::before(
                (#[trigger] now[i]).section@,
                (#[trigger] now[j]).section@,
            ) by {
                assert(text_order::before(had[i].section@, had[j].section@));
            }
            assert forall|i: int| 0 <= i < now.len() implies (#[trigger] now[i]).functions
                == labelled(all, n + 1, now[i].section@) && now[i].functions > 0 by {
                assert(had[i].functions == labelled(all, n as int, had[i].section@));
                if i != p {
                    let a = if i < p {
                        i
                    } else {
                        p as int
                    };
                    let b = if i < p {
                        p as int
                    } else {
                        i
                    };
                    assert(text_order::before(had[a].section@, had[b].section@));
                    text_order::law_texts_are_ordered(had[a].section@, had[b].section@);
                }
            }
            assert forall|k: int| 0 <= k < n + 1 implies exists|i: int|
                0 <= i < now.len() && (#[trigger] now[i]).section@ == section_label(
                    #[trigger] all[k],
                ) by {
                if k < n {
                    let i = choose|i: int|
                        0 <= i < had.len() && (#[trigger] had[i]).section@ == section_label(all[k]);
                    assert(now[i].section@ == had[i].section@);
                } else {
                    assert(now[p as int].section@ == label@);
                }
            }
        }
    } else {
        let row = SectionCount { section: label.to_owned(), functions: 1 };
        v.insert(p, row);
        proof {
            let now = v@;
            assert forall|i: int| 0 <= i < had.len() implies (#[trigger] had[i]).section@
                != label@ by {
                if i < p {
                    assert(text_order::before(had[i].section@, label@));
                    text_order::law_texts_are_ordered(had[i].section@, label@);
                } else if i > p {
                    text_order::law_texts_are_ordered(had[p as int].section@, label@);
                    assert(text_order::before(had[p as int].section@, had[i].section@));
                    text_order::law_texts_are_ordered(label@, label@);
                    if had[i].section@ == label@ {
                        assert(false);
                    }
                }
            }
            assert forall|i: int, j: int| 0 <= i < j < now.len() implies text_order::before(
                (#[trigger] now[i]).section@,
                (#[trigger] now[j]).section@,
            ) by {
                if j < p {
                    assert(text_order::before(had[i].section@, had[j].section@));
                } else if j == p {
                    assert(text_order::before(had[i].section@, label@));
                } else if i < p {
                    assert(text_order::before(had[i].section@, had[j - 1].section@));
                } else if i > p {
                    assert(text_order::before(had[i - 1].section@, had[j - 1].section@));
                } else {
                    text_order::law_texts_are_ordered(had[p as int].section@, label@);
                    assert(text_order::before(label@, had[p as int].section@));
                    if j - 1 > p {
                        assert(text_order::before(had[p as int].section@, had[j - 1].section@));
                        text_order::law_text_order_is_transitive(
                            label@,
                            had[p as int].section@,
                            had[j - 1].section@,
                        );
                    }
                }
            }
            assert forall|k: int| 0 <= k < n implies section_label(#[trigger] all[k]) != label@ by {
                let i = choose|i: int|
                    0 <= i < had.len() && (#[trigger] had[i]).section@ == section_label(all[k]);
                assert(had[i].section@ != label@);
            }
            lemma_labelled(all, n as int, label@);
            assert forall|i: int| 0 <= i < now.len() implies (#[trigger] now[i]).functions
                == labelled(all, n + 1, now[i].section@) && now[i].functions > 0 by {
                if i < p {
                    assert(now[i] == had[i]);
                } else if i > p {
                    assert(now[i] == had[i - 1]);
                }
            }
            assert forall|k: int| 0 <= k < n + 1 implies exists|i: int|
                0 <= i < now.len() && (#[trigger] now[i]).section@ == section_label(
                    #[trigger] all[k],
                ) by {
                if k < n {
                    let i = choose|i: int|
                        0 <= i < had.len() && (#[trigger] had[i]).section@ == section_label(all[k]);
                    if i < p {
                        assert(now[i] == had[i]);
                    } else {
                        assert(now[i + 1] == had[i]);
                    }
                } else {
                    assert(now[p as int].section@ == label@);
                }
            }
        }
    }
}

/// How many functions name each section, in the order of the sections as texts.
pub fn count_sections(fs: &Vec<FunctionToVerify>) -> (r: Vec<SectionCount>)
    ensures
        counts_functions(r@, fs@, fs@.len() as int),
{
    let mut v: Vec<SectionCount> = Vec::new();
    let mut i: usize = 0;
    while i < fs.len()
        invariant
            i <= fs@.len(),
            counts_functions(v@, fs@, i as int),
        decreases fs@.len() - i,
    {
        count_one(&mut v, fs, i);
        i += 1;
    }
    v
}

/// The summary of functions.
pub struct Summary;

impl Printed<Summary> for SectionCount {
    open spec fn printed(self) -> Seq<char> {
        "  "@ + self.section@ + "  "@ + text::decimal(self.functions as nat) + " function(s)\n"@
    }

    fn print(&self) -> (r: String) {
        let mut s = "  ".to_owned();
        s.append(self.section.as_str());
        s.append("  ");
        s.append(count_text(self.functions).as_str());
        s.append(" function(s)\n");
        s
    }
}

/// The summary of functions. `enriched` is how many contracts the specification has added, where there
/// is one.
pub open spec fn summary_text(
    crate_path: Seq<char>,
    functions: nat,
    counts: Seq<SectionCount>,
    enriched: Option<u128>,
) -> Seq<char> {
    let s = report::text_line("Lock status: "@, crate_path) + report::count_line(
        "  Functions: "@,
        functions,
    ) + report::count_line("  Sections: "@, counts.len());
    let s = match enriched {
        Some(n) => s + "  Enriched with spec: "@ + text::decimal(n as nat)
            + " (contracts from Orange Paper)\n"@,
        None => s + "  Enriched: (use --spec-path for spec-derived contracts)\n"@,
    };
    s + "\n"@ + "Sections:\n"@ + report::all_printed::<Summary, SectionCount>(
        counts,
        counts.len() as int,
    )
}

/// The summary of functions.
pub fn format_summary(
    crate_path: &str,
    functions: usize,
    counts: &Vec<SectionCount>,
    enriched: Option<u128>,
) -> (r: String)
    ensures
        r@ == summary_text(crate_path@, functions as nat, counts@, enriched),
{
    let mut s = line_of_text("Lock status: ", crate_path);
    s.append(line_of_count("  Functions: ", functions).as_str());
    s.append(line_of_count("  Sections: ", counts.len()).as_str());
    match enriched {
        Some(n) => {
            s.append("  Enriched with spec: ");
            s.append(decimal_of(n).as_str());
            s.append(" (contracts from Orange Paper)\n");
        },
        None => {
            s.append("  Enriched: (use --spec-path for spec-derived contracts)\n");
        },
    }
    s.append("\n");
    s.append("Sections:\n");
    s.append(print_all::<Summary, SectionCount>(counts).as_str());
    s
}

/// The badge for a number of functions.
pub open spec fn badge_text(functions: nat) -> Seq<char> {
    "[![spec-lock](https://img.shields.io/badge/spec--lock-"@ + text::decimal(functions)
        + "%20locked-"@ + (if functions > 0 {
        "brightgreen"@
    } else {
        "lightgrey"@
    }) + ")](#)"@
}

/// The badge for a number of functions.
pub fn format_badge(functions: usize) -> (r: String)
    ensures
        r@ == badge_text(functions as nat),
{
    let mut s = "[![spec-lock](https://img.shields.io/badge/spec--lock-".to_owned();
    s.append(count_text(functions).as_str());
    s.append("%20locked-");
    if functions > 0 {
        s.append("brightgreen");
    } else {
        s.append("lightgrey");
    }
    s.append(")](#)");
    s
}

// ---------------------------------------------------------------------------
// Exit codes
// ---------------------------------------------------------------------------
/// Whether partial results count as failures: by the command line or by the environment.
pub open spec fn strict(flag: bool, variable: Option<Seq<char>>) -> bool {
    flag || variable == Some("1"@) || variable == Some("true"@) || variable == Some("yes"@)
}

/// Whether partial results count as failures.
pub fn is_strict(flag: bool, variable: Option<&str>) -> (r: bool)
    ensures
        r == strict(
            flag,
            match variable {
                Some(s) => Some(s@),
                None => None,
            },
        ),
{
    flag || match variable {
        Some(s) => same(s, "1") || same(s, "true") || same(s, "yes"),
        None => false,
    }
}

/// The exit code of a verification: one where a function failed or has no contracts, and with `strict`
/// also where a result is partial.
pub open spec fn verify_exit(results: Seq<VerifiedRow>, strict: bool) -> i32 {
    if output::failures(results) > 0 || (strict && output::total(results, Standing::Partial) > 0) {
        1i32
    } else {
        0i32
    }
}

/// The exit code of a verification.
pub fn verify_exit_code(results: &Vec<VerifiedRow>, strict: bool) -> (r: i32)
    ensures
        r == verify_exit(results@, strict),
{
    if count_failures(results) > 0 || (strict && count_of(results, Standing::Partial) > 0) {
        1
    } else {
        0
    }
}

/// The exit code of the search for drift: one where a contract does not match or is missing, or where a
/// condition cannot be read.
pub fn drift_exit_code(d: &DriftResult) -> (r: i32)
    ensures
        r == if d.mismatched_contracts@.len() > 0 || d.missing_from_spec@.len() > 0
            || d.missing_implementations@.len() > 0 || d.unparseable_spec_contracts@.len() > 0 {
            1i32
        } else {
            0i32
        },
{
    if d.mismatched_contracts.len() > 0 || d.missing_from_spec.len() > 0
        || d.missing_implementations.len() > 0 || d.unparseable_spec_contracts.len() > 0 {
        1
    } else {
        0
    }
}

/// A strict run fails wherever one that is not strict fails, and a run that is said to be in order
/// fails in neither way.
pub proof fn law_strict_is_stricter(v: Seq<VerifiedRow>)
    ensures
        verify_exit(v, false) == 1 ==> verify_exit(v, true) == 1,
        output::verdict(v) == "ok"@ ==> verify_exit(v, true) == 0,
{
    reveal_strlit("ok");
    reveal_strlit("FAILED");
    reveal_strlit("PARTIAL");
    assert("ok"@.len() != "FAILED"@.len());
    assert("ok"@.len() != "PARTIAL"@.len());
}

/// The exit code tells of the results alone: it is one where some function failed or has no
/// contracts, and with `strict` where some result is partial, and zero otherwise.
pub proof fn law_exit_code_tells_of_the_results(v: Seq<VerifiedRow>, strict: bool)
    ensures
        verify_exit(v, strict) == 1 <==> exists|i: int|
            0 <= i < v.len() && ((#[trigger] v[i]).1 is Failed || v[i].1 is NoContracts || (strict
                && v[i].1 is Partial)),
        verify_exit(v, strict) != 1 ==> verify_exit(v, strict) == 0,
{
    let n = v.len() as int;
    output::law_verdict_is_failed_by_a_failure(v, n);
    lemma_some_partial(v, n);
    if output::total(v, Standing::Partial) > 0 {
        let i = choose|i: int| 0 <= i < n && (#[trigger] v[i]).1 is Partial;
        assert(v[i].1 is Partial);
    }
}

proof fn lemma_some_partial(v: Seq<VerifiedRow>, n: int)
    requires
        0 <= n <= v.len(),
    ensures
        output::tally(v, n, Standing::Partial) > 0 <==> exists|i: int|
            0 <= i < n && (#[trigger] v[i]).1 is Partial,
    decreases n,
{
    if n > 0 {
        lemma_some_partial(v, n - 1);
        if output::tally(v, n - 1, Standing::Partial) > 0 {
            let i = choose|i: int| 0 <= i < n - 1 && (#[trigger] v[i]).1 is Partial;
            assert(v[i].1 is Partial);
        }
        if v[n - 1].1 is Partial {
            assert(output::tally(v, n, Standing::Partial) > 0);
        }
    }
}

/// Functions of one file are ordered by their names.
pub proof fn law_names_order_one_file(a: FunctionToVerify, b: FunctionToVerify)
    requires
        a.file_path@ == b.file_path@,
    ensures
        function_before(a, b) <==> text_order::before(a.function_name@, b.function_name@),
{
    let x = path_keys(a.file_path@);
    text_order::law_lists_are_ordered(x, x);
}

} // verus!
