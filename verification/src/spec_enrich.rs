//! Contracts that a specification gives the functions that are locked to it.
use std::rc::Rc;
use vstd::prelude::*;
use crate::ast::{Expr, FnItem};
use crate::attributes;
use crate::attributes::{AnchorView, Contract, ContractView, FunctionToVerify, SecondarySpecAnchor};
use crate::chars;
use crate::chars::{end_of_run, is_alphabetic, is_in, to_uppercase, trim, CharClass};
use crate::condition;
use crate::condition::extract_parseable_condition;
use crate::contracts::ContractType;
use crate::orange_paper;
use crate::orange_paper::{section_id_subsumes_formula_section, SpecParser};
use crate::patterns;
use crate::patterns::{captures_iter, Found};
use crate::rust_syntax::expression_read;
use crate::source::{is_rust_expression, read_expression};
use crate::tree::expr_view;
use crate::spec_types;
use crate::spec_types::{ConstantView, FunctionSpec, FunctionView, SectionView};
use crate::text;
use crate::text::{cat, cat3, contains, find_str, from_range, has_string, same, split, to_chars};

verus! {

/// A name in an expression.
pub const IDENTIFIER: &'static str = r"\b([A-Za-z_][A-Za-z0-9_]*)\b";

// ---------------------------------------------------------------------------
// Names
// ---------------------------------------------------------------------------
/// A word with its first letter in capitals.
pub open spec fn capitalised(s: Seq<char>) -> Seq<char> {
    if s.len() == 0 {
        s
    } else {
        chars::unicode_upper(seq![s[0]]) + s.skip(1)
    }
}

/// The first `n` words in one, each with its first letter in capitals.
pub open spec fn all_capitalised(words: Seq<Seq<char>>, n: int) -> Seq<char>
    decreases n,
{
    if n <= 0 || n > words.len() {
        seq![]
    } else {
        all_capitalised(words, n - 1) + capitalised(words[n - 1])
    }
}

/// The name that a function of the code has in the specification: its words in one, each with its
/// first letter in capitals.
pub open spec fn spec_name(name: Seq<char>) -> Seq<char> {
    let words = text::parts(name, "_"@);
    all_capitalised(words, words.len() as int)
}

fn capitalise(s: &str) -> (r: String)
    ensures
        r@ == capitalised(s@),
{
    let v = to_chars(s);
    if v.len() == 0 {
        return s.to_owned();
    }
    let first = from_range(v.as_slice(), 0, 1);
    let rest = from_range(v.as_slice(), 1, v.len());
    proof {
        assert(s@.subrange(0, 1) =~= seq![s@[0]]);
        assert(s@.subrange(1, s@.len() as int) =~= s@.skip(1));
    }
    let upper = to_uppercase(first.as_str());
    cat(upper.as_str(), rest.as_str())
}

/// The name that a function of the code has in the specification.
pub fn rust_to_spec_name(rust_name: &str) -> (r: String)
    ensures
        r@ == spec_name(rust_name@),
{
    proof {
        reveal_strlit("_");
    }
    let words = split(rust_name, "_");
    let ghost wv = text::views(words@);
    let mut out = String::new();
    let mut i: usize = 0;
    proof {
        assert(out@ =~= seq![]);
        assert(wv.len() == words@.len());
    }
    while i < words.len()
        invariant
            i <= words.len(),
            wv == text::views(words@),
            out@ == all_capitalised(wv, i as int),
        decreases words.len() - i,
    {
        proof {
            assert(wv[i as int] == words@[i as int]@);
            assert(wv.len() == words@.len());
        }
        let word = capitalise(words[i].as_str());
        out = cat(out.as_str(), word.as_str());
        i += 1;
    }
    out
}

/// The first function of a section, or of the section that it belongs to, and so on.
pub open spec fn first_upwards(v: Seq<SectionView>, section: Seq<char>) -> Option<FunctionView>
    decreases section.len(),
{
    match orange_paper::function_found(v, section, None) {
        Some(f) => Some(f),
        None => match text::rfind(section, '.') {
            Some(p) if 0 <= p < section.len() => first_upwards(v, section.take(p)),
            _ => None,
        },
    }
}

/// The function of a specification that a function of the code is locked to, as far as contracts are
/// concerned: by its name in the section, by its name anywhere, or the first one of the section or of
/// one that it belongs to. One without contracts gives way to the invariants of the section.
pub open spec fn spec_function(v: Seq<SectionView>, section: Seq<char>, name: Seq<char>) -> Option<
    FunctionView,
> {
    let found = if orange_paper::function_found(v, section, Some(name)) is Some {
        orange_paper::function_found(v, section, Some(name))
    } else {
        match orange_paper::found_anywhere(v, name, 0) {
            Some((f, _)) => Some(f),
            None => first_upwards(v, section),
        }
    };
    match found {
        Some(f) => if f.contracts.len() == 0 {
            orange_paper::function_found(v, section, Some("*"@))
        } else {
            Some(f)
        },
        None => None,
    }
}

fn find_upwards<'a>(parser: &'a SpecParser, section: &str) -> (r: Option<&'a FunctionSpec>)
    ensures
        match r {
            Some(f) => first_upwards(parser.read(), section@) == Some(f@),
            None => first_upwards(parser.read(), section@) is None,
        },
{
    let v = to_chars(section);
    let mut n: usize = v.len();
    proof {
        assert(section@.take(n as int) =~= section@);
    }
    loop
        invariant
            n <= v@.len(),
            v@ == section@,
            first_upwards(parser.read(), section@) == first_upwards(
                parser.read(),
                section@.take(n as int),
            ),
        decreases n,
    {
        let s = from_range(v.as_slice(), 0, n);
        let ghost t = section@.take(n as int);
        proof {
            assert(section@.subrange(0, n as int) =~= t);
        }
        if let Some(f) = parser.find_function(s.as_str(), None) {
            return Some(f);
        }
        let w = to_chars(s.as_str());
        match crate::text::rfind_pos(w.as_slice(), '.') {
            Some(p) => {
                proof {
                    lemma_rfind(t, '.', t.len() as int);
                    assert(t.take(p as int) =~= section@.take(p as int));
                }
                n = p;
            },
            None => {
                return None;
            },
        }
    }
}

proof fn lemma_rfind(s: Seq<char>, c: char, end: int)
    requires
        0 <= end <= s.len(),
    ensures
        text::rfind_before(s, c, end) matches Some(p) ==> 0 <= p < end,
    decreases end,
{
    if end > 0 && s[end - 1] != c {
        lemma_rfind(s, c, end - 1);
    }
}

/// The function of a specification that a function of the code is locked to.
pub fn find_spec_function<'a>(parser: &'a SpecParser, section: &str, name: &str) -> (r: Option<
    &'a FunctionSpec,
>)
    ensures
        match r {
            Some(f) => spec_function(parser.read(), section@, name@) == Some(f@),
            None => spec_function(parser.read(), section@, name@) is None,
        },
{
    let found = match parser.find_function(section, Some(name)) {
        Some(f) => Some(f),
        None => match parser.find_function_anywhere(name) {
            Some((f, _)) => Some(f),
            None => find_upwards(parser, section),
        },
    };
    match found {
        Some(f) => {
            proof {
                assert(f@.contracts.len() == f.contracts@.len());
            }
            if f.contracts.len() == 0 {
                parser.find_function(section, Some("*"))
            } else {
                Some(f)
            }
        },
        None => None,
    }
}

// ---------------------------------------------------------------------------
// Conditions that fit
// ---------------------------------------------------------------------------
/// What a condition of a specification is read as for a function: the expression, whether it is
/// Rust, and whether it fits the function.
#[verifier::ext_equal]
pub struct ReadingView {
    pub expression: Option<Seq<char>>,
    pub valid: bool,
    pub fits: bool,
}

/// What a condition of a specification is read as for a function: the expression, whether it is
/// Rust, and whether it fits the function.
#[derive(Debug)]
pub struct Reading {
    pub expression: Option<String>,
    pub valid: bool,
    pub fits: bool,
}

impl View for Reading {
    type V = ReadingView;

    open spec fn view(&self) -> ReadingView {
        ReadingView {
            expression: patterns::group_view(self.expression),
            valid: self.valid,
            fits: self.fits,
        }
    }
}

/// What a condition of a specification is read as for a function.
pub open spec fn reading_of(condition: Seq<char>, sig: Option<Rc<FnItem>>) -> ReadingView {
    let expression = condition::extraction(condition);
    ReadingView {
        expression,
        valid: expression is Some && expression_read(expression->0) is Some,
        fits: expression is Some && fits(expression->0, sig),
    }
}

/// What a condition of a specification is read as for a function.
pub fn read_condition(condition: &str, sig: &Option<Rc<FnItem>>) -> (r: Reading)
    ensures
        r@ == reading_of(condition@, *sig),
{
    let expression = extract_parseable_condition(condition);
    let (valid, fits) = match &expression {
        Some(s) => (is_rust_expression(s.as_str()), does_fit(s.as_str(), sig)),
        None => (false, false),
    };
    Reading { expression, valid, fits }
}

/// Words that are no parameters.
pub open spec fn reserved(name: Seq<char>) -> bool {
    name == "result"@ || name == "true"@ || name == "false"@ || name == "Ok"@ || name == "Err"@ || name
        == "Some"@ || name == "None"@ || name == "u64"@ || name == "u32"@ || name == "i64"@ || name
        == "i32"@ || name == "usize"@ || name == "bool"@ || name == "as"@ || name == "let"@ || name
        == "if"@ || name == "else"@ || name == "return"@ || name == "and"@ || name == "or"@ || name
        == "not"@
}

/// The names in an expression that are not reserved, among the first `n`.
pub open spec fn names_given(hits: Seq<crate::spec_extract::Hit>, n: int) -> Seq<Seq<char>>
    decreases n,
{
    if n <= 0 || n > hits.len() {
        seq![]
    } else {
        let name = patterns::group_text(hits[n - 1].0, 1);
        if reserved(name) {
            names_given(hits, n - 1)
        } else {
            names_given(hits, n - 1).push(name)
        }
    }
}

/// Whether there are names and none is that of a parameter.
pub open spec fn all_foreign(names: Seq<Seq<char>>, params: Seq<Seq<char>>) -> bool {
    names.len() > 0 && forall|i: int| 0 <= i < names.len() ==> !params.contains(#[trigger] names[i])
}

/// Whether an expression names things, and none of them is a parameter.
pub open spec fn only_foreign(expression: Seq<char>, params: Seq<Seq<char>>) -> bool {
    let hits = patterns::pattern_all(IDENTIFIER@, expression);
    all_foreign(names_given(hits, hits.len() as int), params)
}

/// The names of the parameters of a function.
pub open spec fn param_names(sig: FnItem) -> Seq<Seq<char>> {
    sig.params@.map_values(|p: (String, crate::ast::Type)| p.0@)
}

/// Whether an expression fits a function: where the function has parameters, one of them is named, or
/// nothing is.
pub open spec fn fits(expression: Seq<char>, sig: Option<Rc<FnItem>>) -> bool {
    match sig {
        Some(f) => param_names(*f).len() == 0 || !only_foreign(expression, param_names(*f)),
        None => true,
    }
}

fn is_reserved(n: &str) -> (r: bool)
    ensures
        r == reserved(n@),
{
    same(n, "result") || same(n, "true") || same(n, "false") || same(n, "Ok") || same(n, "Err") || same(
        n,
        "Some",
    ) || same(n, "None") || same(n, "u64") || same(n, "u32") || same(n, "i64") || same(n, "i32")
        || same(n, "usize") || same(n, "bool") || same(n, "as") || same(n, "let") || same(n, "if")
        || same(n, "else") || same(n, "return") || same(n, "and") || same(n, "or") || same(n, "not")
}

/// The names in an expression that are not reserved.
pub fn read_names(found: &Vec<Found>) -> (r: Vec<String>)
    ensures
        text::views(r@) == names_given(patterns::found_views(found@), found@.len() as int),
{
    let ghost hits = patterns::found_views(found@);
    let mut out: Vec<String> = Vec::new();
    let mut i: usize = 0;
    proof {
        assert(text::views(out@) =~= seq![]);
    }
    while i < found.len()
        invariant
            i <= found.len(),
            hits == patterns::found_views(found@),
            text::views(out@) == names_given(hits, i as int),
        decreases found.len() - i,
    {
        proof {
            assert(hits[i as int] == found@[i as int]@);
        }
        let name = found[i].text_of(1);
        if !is_reserved(name.as_str()) {
            let ghost now = out@;
            let ghost nv = name@;
            out.push(name);
            proof {
                assert(text::views(out@) =~= text::views(now).push(nv));
            }
        }
        i += 1;
    }
    out
}

/// Whether there are names and none is that of a parameter.
pub fn are_all_foreign(names: &Vec<String>, params: &Vec<String>) -> (r: bool)
    ensures
        r == all_foreign(text::views(names@), text::views(params@)),
{
    let ghost nv = text::views(names@);
    proof {
        assert(nv.len() == names@.len());
    }
    if names.len() == 0 {
        return false;
    }
    let mut i: usize = 0;
    while i < names.len()
        invariant
            i <= names.len(),
            nv == text::views(names@),
            forall|k: int| 0 <= k < i ==> !text::views(params@).contains(#[trigger] nv[k]),
        decreases names.len() - i,
    {
        proof {
            assert(nv[i as int] == names@[i as int]@);
            assert(nv.len() == names@.len());
        }
        if has_string(params, names[i].as_str()) {
            return false;
        }
        i += 1;
    }
    true
}

/// Whether an expression names things, and none of them is a parameter.
pub fn condition_references_only_unknown_vars(cond: &str, params: &Vec<String>) -> (r: bool)
    ensures
        r == only_foreign(cond@, text::views(params@)),
{
    let found = captures_iter(IDENTIFIER, cond);
    proof {
        assert(patterns::found_views(found@).len() == found@.len());
    }
    let names = read_names(&found);
    are_all_foreign(&names, params)
}

/// The names of the parameters of a function.
pub fn names_of_params(sig: &FnItem) -> (r: Vec<String>)
    ensures
        text::views(r@) == param_names(*sig),
{
    let mut out: Vec<String> = Vec::new();
    let mut i: usize = 0;
    while i < sig.params.len()
        invariant
            i <= sig.params.len(),
            out@.len() == i,
            forall|k: int| 0 <= k < i ==> (#[trigger] out@[k])@ == sig.params@[k].0@,
        decreases sig.params.len() - i,
    {
        out.push(sig.params[i].0.as_str().to_owned());
        i += 1;
    }
    proof {
        assert(text::views(out@) =~= param_names(*sig));
    }
    out
}

fn does_fit(expression: &str, sig: &Option<Rc<FnItem>>) -> (r: bool)
    ensures
        r == fits(expression@, *sig),
{
    match sig {
        Some(f) => {
            let params = names_of_params(f);
            proof {
                assert(text::views(params@).len() == params@.len());
            }
            params.len() == 0 || !condition_references_only_unknown_vars(expression, &params)
        },
        None => true,
    }
}

// ---------------------------------------------------------------------------
// Implications
// ---------------------------------------------------------------------------
/// Where the arrow of an implication stands, by the first kind of arrow that occurs.
pub open spec fn arrow(c: Seq<char>) -> Option<int> {
    if text::find(c, r"\implies"@) is Some {
        text::find(c, r"\implies"@)
    } else if text::find(c, r"\Rightarrow"@) is Some {
        text::find(c, r"\Rightarrow"@)
    } else if text::find(c, "⇒"@) is Some {
        text::find(c, "⇒"@)
    } else if text::find(c, "→"@) is Some {
        text::find(c, "→"@)
    } else {
        text::find(c, "=>"@)
    }
}

/// Whether from `i` on a word other than `result` stands in a text: it starts with a letter, and
/// letters, number signs, underscores and backslashes belong to it.
pub open spec fn word_from(s: Seq<char>, i: int) -> bool
    decreases s.len() - i,
{
    if i < 0 || i >= s.len() {
        false
    } else if !chars::in_class(CharClass::Token, s[i]) {
        word_from(s, i + 1)
    } else {
        let e = chars::run_end(s, i + 1, CharClass::Token);
        (chars::alphabetic(s[i]) && s.subrange(i, e) != "result"@) || (i < e <= s.len() && word_from(s, e))
    }
}

/// Whether a condition is an implication whose premise speaks of more than the result. Its conclusion
/// alone would not hold of all inputs.
pub open spec fn conditional(c: Seq<char>) -> bool {
    match arrow(c) {
        Some(p) => word_from(c.take(p), 0),
        None => false,
    }
}

fn find_arrow(c: &str) -> (r: Option<usize>)
    ensures
        match r {
            Some(p) => arrow(c@) == Some(p as int) && p <= c@.len(),
            None => arrow(c@) is None,
        },
{
    proof {
        text::lemma_find_from(c@, r"\implies"@, 0);
        text::lemma_find_from(c@, r"\Rightarrow"@, 0);
        text::lemma_find_from(c@, "⇒"@, 0);
        text::lemma_find_from(c@, "→"@, 0);
        text::lemma_find_from(c@, "=>"@, 0);
    }
    if let Some(p) = find_str(c, r"\implies") {
        return Some(p);
    }
    if let Some(p) = find_str(c, r"\Rightarrow") {
        return Some(p);
    }
    if let Some(p) = find_str(c, "⇒") {
        return Some(p);
    }
    if let Some(p) = find_str(c, "→") {
        return Some(p);
    }
    find_str(c, "=>")
}

fn has_word(s: &[char]) -> (r: bool)
    ensures
        r == word_from(s@, 0),
{
    let mut i: usize = 0;
    while i < s.len()
        invariant
            i <= s@.len(),
            word_from(s@, 0) == word_from(s@, i as int),
        decreases s@.len() - i,
    {
        if !is_in(CharClass::Token, s[i]) {
            i += 1;
        } else {
            proof {
                chars::lemma_run_end(s@, i + 1, CharClass::Token);
            }
            let e = end_of_run(s, i + 1, CharClass::Token);
            let word = from_range(s, i, e);
            if is_alphabetic(s[i]) && !same(word.as_str(), "result") {
                return true;
            }
            i = e;
        }
    }
    false
}

/// Whether a condition is an implication whose premise speaks of more than the result.
pub fn is_conditional(c: &str) -> (r: bool)
    ensures
        r == conditional(c@),
{
    match find_arrow(c) {
        Some(p) => {
            let v = to_chars(c);
            let premise = from_range(v.as_slice(), 0, p);
            proof {
                assert(c@.subrange(0, p as int) =~= c@.take(p as int));
            }
            let w = to_chars(premise.as_str());
            has_word(w.as_slice())
        },
        None => false,
    }
}

// ---------------------------------------------------------------------------
// Contracts of a function
// ---------------------------------------------------------------------------
/// Expressions that were read, by their texts.
pub type Parsed = Seq<(String, Rc<Expr>)>;

/// The expression of a text among those from `i` on.
pub open spec fn parsed_from(parsed: Parsed, s: Seq<char>, i: int) -> Option<Rc<Expr>>
    decreases parsed.len() - i,
{
    if i < 0 || i >= parsed.len() {
        None
    } else if parsed[i].0@ == s {
        Some(parsed[i].1)
    } else {
        parsed_from(parsed, s, i + 1)
    }
}

/// The expression that a reading gives.
pub open spec fn reading_expr(parsed: Parsed, r: ReadingView) -> Option<Rc<Expr>> {
    match r.expression {
        Some(s) => parsed_from(parsed, s, 0),
        None => None,
    }
}

/// The contracts among the first `n` that stay: preconditions and trusted statements of the code.
pub open spec fn kept(cs: Seq<ContractView>, n: int) -> Seq<ContractView>
    decreases n,
{
    if n <= 0 || n > cs.len() {
        seq![]
    } else if cs[n - 1].contract_type != ContractType::Ensures && !cs[n - 1].is_spec_derived {
        kept(cs, n - 1).push(cs[n - 1])
    } else {
        kept(cs, n - 1)
    }
}

/// The postconditions of the code among the first `n` contracts.
pub open spec fn manual(cs: Seq<ContractView>, n: int) -> Seq<ContractView>
    decreases n,
{
    if n <= 0 || n > cs.len() {
        seq![]
    } else if cs[n - 1].contract_type == ContractType::Ensures && !cs[n - 1].is_spec_derived {
        manual(cs, n - 1).push(cs[n - 1])
    } else {
        manual(cs, n - 1)
    }
}

/// Whether a contract has this condition.
pub open spec fn has_condition(cs: Seq<ContractView>, c: Seq<char>) -> bool {
    exists|i: int| 0 <= i < cs.len() && (#[trigger] cs[i]).condition == c
}

/// Contracts with the first `n` of others, but for those whose condition is there already.
pub open spec fn restored(cs: Seq<ContractView>, others: Seq<ContractView>, n: int) -> Seq<
    ContractView,
>
    decreases n,
{
    if n <= 0 || n > others.len() {
        cs
    } else {
        let done = restored(cs, others, n - 1);
        if has_condition(done, others[n - 1].condition) {
            done
        } else {
            done.push(others[n - 1])
        }
    }
}

/// Whether every postcondition of the specification is `true`.
pub open spec fn trivial(cs: Seq<ContractView>) -> bool {
    forall|i: int|
        0 <= i < cs.len() && (#[trigger] cs[i]).is_spec_derived && cs[i].contract_type
            == ContractType::Ensures ==> chars::trimmed(cs[i].condition) == "true"@
}

/// Contracts with the postconditions of the code, where the specification gives none or only `true`.
pub open spec fn completed(cs: Seq<ContractView>, own: Seq<ContractView>, added: bool) -> Seq<
    ContractView,
> {
    if !added || trivial(cs) {
        restored(cs, own, own.len() as int)
    } else {
        cs
    }
}

/// A contract that comes from the specification.
pub open spec fn derived(k: ContractType, c: Seq<char>, e: Option<Rc<Expr>>) -> ContractView {
    ContractView { contract_type: k, condition: c, expr: e, is_spec_derived: true }
}

/// The contracts of a function that is anchored to a constant: it returns the value. Postconditions
/// of the code give way.
pub open spec fn constant_contracts(cs: Seq<ContractView>, r: ReadingView, e: Option<Rc<Expr>>) -> (
    Seq<ContractView>,
    nat,
) {
    let stay = kept(cs, cs.len() as int);
    if r.valid && r.expression is Some {
        (stay.push(derived(ContractType::Ensures, r.expression->0, e)), 1)
    } else {
        (stay, 0)
    }
}

/// The contracts of a function that is anchored to a formula.
pub open spec fn formula_contracts(
    cs: Seq<ContractView>,
    body: Seq<char>,
    r: ReadingView,
    e: Option<Rc<Expr>>,
) -> (Seq<ContractView>, nat) {
    let stay = kept(cs, cs.len() as int);
    let own = manual(cs, cs.len() as int);
    let c = chars::trimmed(body);
    if c.len() > 0 && r.valid && r.fits {
        (completed(stay.push(derived(ContractType::Ensures, c, e)), own, true), 1)
    } else {
        (completed(stay, own, false), 0)
    }
}

/// The kind of contract that a kind in the specification becomes.
pub open spec fn code_kind(k: spec_types::ContractType) -> ContractType {
    if k == spec_types::ContractType::Requires {
        ContractType::Requires
    } else {
        ContractType::Ensures
    }
}

/// Whether a contract of the specification is taken over: it is not empty, its condition is Rust, does
/// not hang on a premise, fits the function, and is not there already.
pub open spec fn taken(cs: Seq<ContractView>, c: Seq<char>, r: ReadingView) -> bool {
    c.len() > 0 && r.valid && !conditional(c) && r.fits && !has_condition(cs, c)
}

/// Contracts with the first `n` of the specification that are taken over.
pub open spec fn with_contracts(
    cs: Seq<ContractView>,
    given: Seq<spec_types::ContractView>,
    readings: Seq<ReadingView>,
    parsed: Parsed,
    n: int,
) -> (Seq<ContractView>, nat)
    decreases n,
{
    if n <= 0 || n > given.len() {
        (cs, 0)
    } else {
        let (done, count) = with_contracts(cs, given, readings, parsed, n - 1);
        let c = chars::trimmed(given[n - 1].condition);
        if taken(done, c, readings[n - 1]) {
            (
                done.push(
                    derived(
                        code_kind(given[n - 1].contract_type),
                        c,
                        reading_expr(parsed, readings[n - 1]),
                    ),
                ),
                count + 1,
            )
        } else {
            (done, count)
        }
    }
}

/// The contracts of a function that the specification has.
pub open spec fn function_contracts(
    cs: Seq<ContractView>,
    given: Seq<spec_types::ContractView>,
    readings: Seq<ReadingView>,
    parsed: Parsed,
) -> (Seq<ContractView>, nat) {
    let (done, count) = with_contracts(
        kept(cs, cs.len() as int),
        given,
        readings,
        parsed,
        given.len() as int,
    );
    (completed(done, manual(cs, cs.len() as int), count > 0), count)
}

/// What contracts of the specification are read as for a function.
pub open spec fn readings_of(given: Seq<spec_types::ContractView>, sig: Option<Rc<FnItem>>) -> Seq<
    ReadingView,
> {
    given.map_values(
        |c: spec_types::ContractView| reading_of(chars::trimmed(c.condition), sig),
    )
}

/// The error on a constant that is not in the specification.
pub open spec fn no_constant(id: Seq<char>) -> Seq<char> {
    "Orange Paper (--spec-path) has no **`C_*`** id `"@ + id
        + "` (Section 4 **$NAME = …$**) referenced by **`#[spec_locked]`**."@
}

/// The error on a formula that is not in the specification.
pub open spec fn no_formula(id: Seq<char>) -> Seq<char> {
    "Orange Paper (--spec-path) has no **`Formula`** id `"@ + id
        + "` referenced by **`#[spec_locked]`**."@
}

/// The condition that a function that returns a constant meets.
pub open spec fn constant_condition(c: ConstantView) -> Seq<char> {
    "result == "@ + c.rust_expr
}

/// The contracts of a function after a specification was looked at, and how many of them it gave; or
/// what the function refers to that the specification does not have. An anchor counts only where its
/// section is the one that the function is locked to, or one inside it.
pub open spec fn enrichment(f: FunctionToVerify, v: Seq<SectionView>, parsed: Parsed) -> Result<
    (Seq<ContractView>, nat),
    Seq<char>,
> {
    let cs = attributes::contract_views(f.contracts@);
    match f.section {
        None => Ok((cs, 0)),
        Some(section) => match (f.constant_anchor, f.formula_anchor) {
            (Some(cid), _) => match orange_paper::stable_constant(v, cid@) {
                Err(e) => Err("Orange Paper (--spec-path) constant index: "@ + e),
                Ok(None) => Err(no_constant(cid@)),
                Ok(Some(c)) => if orange_paper::number_extends(c.section, section@) {
                    let r = reading_of(constant_condition(c), f.function_sig);
                    Ok(constant_contracts(cs, r, reading_expr(parsed, r)))
                } else {
                    Ok((cs, 0))
                },
            },
            (None, Some(fid)) => match orange_paper::stable_formula(v, fid@) {
                None => Err(no_formula(fid@)),
                Some(x) => if orange_paper::number_extends(x.section, section@) {
                    let r = reading_of(chars::trimmed(x.latex_body), f.function_sig);
                    Ok(formula_contracts(cs, x.latex_body, r, reading_expr(parsed, r)))
                } else {
                    Ok((cs, 0))
                },
            },
            (None, None) => {
                let name = match f.spec_name_override {
                    Some(n) => n@,
                    None => spec_name(f.function_name@),
                };
                match spec_function(v, section@, name) {
                    Some(x) => if x.contracts.len() > 0 {
                        Ok(
                            function_contracts(
                                cs,
                                x.contracts,
                                readings_of(x.contracts, f.function_sig),
                                parsed,
                            ),
                        )
                    } else {
                        Ok((cs, 0))
                    },
                    None => Ok((cs, 0)),
                }
            },
        },
    }
}

fn find_parsed(parsed: &Vec<(String, Rc<Expr>)>, s: &str) -> (r: Option<Rc<Expr>>)
    ensures
        r == parsed_from(parsed@, s@, 0),
{
    let mut i: usize = 0;
    while i < parsed.len()
        invariant
            i <= parsed.len(),
            parsed_from(parsed@, s@, 0) == parsed_from(parsed@, s@, i as int),
        decreases parsed.len() - i,
    {
        if same(parsed[i].0.as_str(), s) {
            return Some(parsed[i].1.clone());
        }
        i += 1;
    }
    None
}

fn expr_of_reading(parsed: &Vec<(String, Rc<Expr>)>, r: &Reading) -> (e: Option<Rc<Expr>>)
    ensures
        e == reading_expr(parsed@, r@),
{
    match &r.expression {
        Some(s) => find_parsed(parsed, s.as_str()),
        None => None,
    }
}

fn push_contract(out: &mut Vec<Contract>, c: Contract)
    ensures
        attributes::contract_views(final(out)@) == attributes::contract_views(old(out)@).push(c@),
        final(out)@.len() == old(out)@.len() + 1,
{
    let ghost had = out@;
    let ghost cv = c@;
    out.push(c);
    proof {
        assert(attributes::contract_views(out@) =~= attributes::contract_views(had).push(cv));
    }
}

fn keep(cs: &Vec<Contract>) -> (r: Vec<Contract>)
    ensures
        attributes::contract_views(r@) == kept(attributes::contract_views(cs@), cs@.len() as int),
{
    let ghost cv = attributes::contract_views(cs@);
    let mut out: Vec<Contract> = Vec::new();
    let mut i: usize = 0;
    proof {
        assert(attributes::contract_views(out@) =~= seq![]);
    }
    while i < cs.len()
        invariant
            i <= cs.len(),
            cv == attributes::contract_views(cs@),
            attributes::contract_views(out@) == kept(cv, i as int),
        decreases cs.len() - i,
    {
        proof {
            assert(cv[i as int] == cs@[i as int]@);
        }
        if cs[i].contract_type != ContractType::Ensures && !cs[i].is_spec_derived {
            push_contract(&mut out, attributes::copy_contract(&cs[i]));
        }
        i += 1;
    }
    out
}

fn manual_of(cs: &Vec<Contract>) -> (r: Vec<Contract>)
    ensures
        attributes::contract_views(r@) == manual(attributes::contract_views(cs@), cs@.len() as int),
{
    let ghost cv = attributes::contract_views(cs@);
    let mut out: Vec<Contract> = Vec::new();
    let mut i: usize = 0;
    proof {
        assert(attributes::contract_views(out@) =~= seq![]);
    }
    while i < cs.len()
        invariant
            i <= cs.len(),
            cv == attributes::contract_views(cs@),
            attributes::contract_views(out@) == manual(cv, i as int),
        decreases cs.len() - i,
    {
        proof {
            assert(cv[i as int] == cs@[i as int]@);
        }
        if cs[i].contract_type == ContractType::Ensures && !cs[i].is_spec_derived {
            push_contract(&mut out, attributes::copy_contract(&cs[i]));
        }
        i += 1;
    }
    out
}

fn condition_is_there(cs: &Vec<Contract>, c: &str) -> (r: bool)
    ensures
        r == has_condition(attributes::contract_views(cs@), c@),
{
    let ghost cv = attributes::contract_views(cs@);
    let mut i: usize = 0;
    while i < cs.len()
        invariant
            i <= cs.len(),
            cv == attributes::contract_views(cs@),
            forall|k: int| 0 <= k < i ==> (#[trigger] cv[k]).condition != c@,
        decreases cs.len() - i,
    {
        proof {
            assert(cv[i as int] == cs@[i as int]@);
        }
        if same(cs[i].condition.as_str(), c) {
            return true;
        }
        i += 1;
    }
    proof {
        assert(cv.len() == cs@.len());
    }
    false
}

fn is_trivial(cs: &Vec<Contract>) -> (r: bool)
    ensures
        r == trivial(attributes::contract_views(cs@)),
{
    let ghost cv = attributes::contract_views(cs@);
    let mut i: usize = 0;
    while i < cs.len()
        invariant
            i <= cs.len(),
            cv == attributes::contract_views(cs@),
            forall|k: int|
                0 <= k < i && (#[trigger] cv[k]).is_spec_derived && cv[k].contract_type
                    == ContractType::Ensures ==> chars::trimmed(cv[k].condition) == "true"@,
        decreases cs.len() - i,
    {
        proof {
            assert(cv[i as int] == cs@[i as int]@);
        }
        if cs[i].is_spec_derived && cs[i].contract_type == ContractType::Ensures {
            let c = trim(cs[i].condition.as_str());
            if !same(c.as_str(), "true") {
                return false;
            }
        }
        i += 1;
    }
    proof {
        assert(cv.len() == cs@.len());
    }
    true
}

fn complete(cs: Vec<Contract>, own: &Vec<Contract>, added: bool) -> (r: Vec<Contract>)
    ensures
        attributes::contract_views(r@) == completed(
            attributes::contract_views(cs@),
            attributes::contract_views(own@),
            added,
        ),
{
    if added && !is_trivial(&cs) {
        return cs;
    }
    let ghost had = attributes::contract_views(cs@);
    let ghost ov = attributes::contract_views(own@);
    let mut out = cs;
    let mut i: usize = 0;
    while i < own.len()
        invariant
            i <= own.len(),
            ov == attributes::contract_views(own@),
            attributes::contract_views(out@) == restored(had, ov, i as int),
        decreases own.len() - i,
    {
        proof {
            assert(ov[i as int] == own@[i as int]@);
        }
        if !condition_is_there(&out, own[i].condition.as_str()) {
            push_contract(&mut out, attributes::copy_contract(&own[i]));
        }
        i += 1;
    }
    proof {
        assert(ov.len() == own@.len());
    }
    out
}

/// Contracts and how many of them the specification gave, as mathematical values.
pub open spec fn counted(r: (Vec<Contract>, usize)) -> (Seq<ContractView>, nat) {
    (attributes::contract_views(r.0@), r.1 as nat)
}

/// The contracts of a function that is anchored to a constant.
pub fn enrich_constant(cs: &Vec<Contract>, reading: Reading, e: Option<Rc<Expr>>) -> (r: (
    Vec<Contract>,
    usize,
))
    ensures
        counted(r) == constant_contracts(attributes::contract_views(cs@), reading@, e),
{
    proof {
        assert(attributes::contract_views(cs@).len() == cs@.len());
    }
    let mut out = keep(cs);
    if reading.valid {
        if let Some(s) = reading.expression {
            push_contract(
                &mut out,
                Contract {
                    contract_type: ContractType::Ensures,
                    condition: s,
                    expr: e,
                    is_spec_derived: true,
                },
            );
            return (out, 1);
        }
    }
    (out, 0)
}

/// The contracts of a function that is anchored to a formula.
pub fn enrich_formula(cs: &Vec<Contract>, body: &str, reading: &Reading, e: Option<Rc<Expr>>) -> (r: (
    Vec<Contract>,
    usize,
))
    ensures
        counted(r) == formula_contracts(attributes::contract_views(cs@), body@, reading@, e),
{
    proof {
        assert(attributes::contract_views(cs@).len() == cs@.len());
        reveal_strlit("");
    }
    let own = manual_of(cs);
    let mut out = keep(cs);
    let c = trim(body);
    proof {
        assert(c@.len() == 0 ==> c@ =~= ""@);
    }
    if !same(c.as_str(), "") && reading.valid && reading.fits {
        push_contract(
            &mut out,
            Contract {
                contract_type: ContractType::Ensures,
                condition: c,
                expr: e,
                is_spec_derived: true,
            },
        );
        (complete(out, &own, true), 1)
    } else {
        (complete(out, &own, false), 0)
    }
}

fn kind_in_code(k: spec_types::ContractType) -> (r: ContractType)
    ensures
        r == code_kind(k),
{
    match k {
        spec_types::ContractType::Requires => ContractType::Requires,
        spec_types::ContractType::Ensures => ContractType::Ensures,
        spec_types::ContractType::Property => ContractType::Ensures,
        spec_types::ContractType::EdgeCase => ContractType::Ensures,
    }
}

/// Readings as mathematical values.
pub open spec fn reading_views(v: Seq<Reading>) -> Seq<ReadingView> {
    v.map_values(|r: Reading| r@)
}

/// The contracts of a function that the specification has.
pub fn enrich_contracts(
    cs: &Vec<Contract>,
    given: &Vec<spec_types::Contract>,
    readings: &Vec<Reading>,
    parsed: &Vec<(String, Rc<Expr>)>,
) -> (r: (Vec<Contract>, usize))
    requires
        given@.len() == readings@.len(),
    ensures
        counted(r) == function_contracts(
            attributes::contract_views(cs@),
            spec_types::contract_views(given@),
            reading_views(readings@),
            parsed@,
        ),
{
    let ghost gv = spec_types::contract_views(given@);
    let ghost rv = reading_views(readings@);
    proof {
        assert(attributes::contract_views(cs@).len() == cs@.len());
        assert(gv.len() == given@.len());
        reveal_strlit("");
    }
    let own = manual_of(cs);
    let mut out = keep(cs);
    let ghost start = attributes::contract_views(out@);
    let mut count: usize = 0;
    let mut i: usize = 0;
    while i < given.len()
        invariant
            i <= given.len(),
            given@.len() == readings@.len(),
            count <= i,
            ""@.len() == 0,
            gv == spec_types::contract_views(given@),
            rv == reading_views(readings@),
            (attributes::contract_views(out@), count as nat) == with_contracts(
                start,
                gv,
                rv,
                parsed@,
                i as int,
            ),
        decreases given.len() - i,
    {
        proof {
            assert(gv[i as int] == given@[i as int]@);
            assert(rv[i as int] == readings@[i as int]@);
            assert(gv.len() == given@.len());
        }
        let c = trim(given[i].condition.as_str());
        proof {
            assert(c@.len() == 0 ==> c@ =~= ""@);
        }
        if !same(c.as_str(), "") && readings[i].valid && !is_conditional(c.as_str())
            && readings[i].fits && !condition_is_there(&out, c.as_str()) {
            let expr = expr_of_reading(parsed, &readings[i]);
            push_contract(
                &mut out,
                Contract {
                    contract_type: kind_in_code(given[i].contract_type),
                    condition: c,
                    expr,
                    is_spec_derived: true,
                },
            );
            count += 1;
        }
        i += 1;
    }
    (complete(out, &own, count > 0), count)
}

fn read_contracts(given: &Vec<spec_types::Contract>, sig: &Option<Rc<FnItem>>) -> (r: Vec<Reading>)
    ensures
        r@.len() == given@.len(),
        reading_views(r@) == readings_of(spec_types::contract_views(given@), *sig),
{
    let mut out: Vec<Reading> = Vec::new();
    let mut i: usize = 0;
    while i < given.len()
        invariant
            i <= given.len(),
            out@.len() == i,
            forall|k: int|
                0 <= k < i ==> (#[trigger] out@[k])@ == reading_of(
                    chars::trimmed(given@[k].condition@),
                    *sig,
                ),
        decreases given.len() - i,
    {
        let c = trim(given[i].condition.as_str());
        out.push(read_condition(c.as_str(), sig));
        i += 1;
    }
    proof {
        assert(reading_views(out@) =~= readings_of(spec_types::contract_views(given@), *sig));
    }
    out
}

/// The contracts of a function after a specification was looked at, and how many of them it gave.
pub fn enrich_function(
    f: &FunctionToVerify,
    parser: &SpecParser,
    parsed: &Vec<(String, Rc<Expr>)>,
) -> (r: Result<(Vec<Contract>, usize), String>)
    ensures
        match r {
            Ok(x) => enrichment(*f, parser.read(), parsed@) == Ok::<
                (Seq<ContractView>, nat),
                Seq<char>,
            >(counted(x)),
            Err(e) => enrichment(*f, parser.read(), parsed@) == Err::<
                (Seq<ContractView>, nat),
                Seq<char>,
            >(e@),
        },
{
    let section = match &f.section {
        Some(s) => s.as_str(),
        None => {
            return Ok((attributes::copy_contracts(&f.contracts), 0));
        },
    };
    if let Some(cid) = &f.constant_anchor {
        return match parser.stable_constant(cid.as_str()) {
            Err(e) => Err(cat("Orange Paper (--spec-path) constant index: ", e.as_str())),
            Ok(None) => Err(
                cat3(
                    "Orange Paper (--spec-path) has no **`C_*`** id `",
                    cid.as_str(),
                    "` (Section 4 **$NAME = …$**) referenced by **`#[spec_locked]`**.",
                ),
            ),
            Ok(Some(c)) => {
                if section_id_subsumes_formula_section(section, c.section.as_str()) {
                    let condition = cat("result == ", c.rust_expr.as_str());
                    let reading = read_condition(condition.as_str(), &f.function_sig);
                    let e = expr_of_reading(parsed, &reading);
                    Ok(enrich_constant(&f.contracts, reading, e))
                } else {
                    Ok((attributes::copy_contracts(&f.contracts), 0))
                }
            },
        };
    }
    if let Some(fid) = &f.formula_anchor {
        return match parser.stable_formula(fid.as_str()) {
            None => Err(
                cat3(
                    "Orange Paper (--spec-path) has no **`Formula`** id `",
                    fid.as_str(),
                    "` referenced by **`#[spec_locked]`**.",
                ),
            ),
            Some(x) => {
                if section_id_subsumes_formula_section(section, x.section.as_str()) {
                    let condition = trim(x.latex_body.as_str());
                    let reading = read_condition(condition.as_str(), &f.function_sig);
                    let e = expr_of_reading(parsed, &reading);
                    Ok(enrich_formula(&f.contracts, x.latex_body.as_str(), &reading, e))
                } else {
                    Ok((attributes::copy_contracts(&f.contracts), 0))
                }
            },
        };
    }
    let name = match &f.spec_name_override {
        Some(n) => n.as_str().to_owned(),
        None => rust_to_spec_name(f.function_name.as_str()),
    };
    if let Some(x) = find_spec_function(parser, section, name.as_str()) {
        proof {
            assert(x@.contracts.len() == x.contracts@.len());
        }
        if x.contracts.len() > 0 {
            let readings = read_contracts(&x.contracts, &f.function_sig);
            return Ok(enrich_contracts(&f.contracts, &x.contracts, &readings, parsed));
        }
    }
    Ok((attributes::copy_contracts(&f.contracts), 0))
}

/// The expressions among the first `n` readings.
pub open spec fn expressions_in(rs: Seq<ReadingView>, n: int) -> Seq<Seq<char>>
    decreases n,
{
    if n <= 0 || n > rs.len() {
        seq![]
    } else {
        match rs[n - 1].expression {
            Some(s) => expressions_in(rs, n - 1).push(s),
            None => expressions_in(rs, n - 1),
        }
    }
}

/// What is read out of the specification for a function.
pub open spec fn function_readings(f: FunctionToVerify, v: Seq<SectionView>) -> Seq<ReadingView> {
    match f.section {
        None => seq![],
        Some(section) => match (f.constant_anchor, f.formula_anchor) {
            (Some(cid), _) => match orange_paper::stable_constant(v, cid@) {
                Ok(Some(c)) => seq![reading_of(constant_condition(c), f.function_sig)],
                _ => seq![],
            },
            (None, Some(fid)) => match orange_paper::stable_formula(v, fid@) {
                Some(x) => seq![reading_of(chars::trimmed(x.latex_body), f.function_sig)],
                None => seq![],
            },
            (None, None) => {
                let name = match f.spec_name_override {
                    Some(n) => n@,
                    None => spec_name(f.function_name@),
                };
                match spec_function(v, section@, name) {
                    Some(x) => readings_of(x.contracts, f.function_sig),
                    None => seq![],
                }
            },
        },
    }
}

fn readings_for(f: &FunctionToVerify, parser: &SpecParser) -> (r: Vec<Reading>)
    ensures
        reading_views(r@) == function_readings(*f, parser.read()),
{
    let mut out: Vec<Reading> = Vec::new();
    if let Some(section) = &f.section {
        if let Some(cid) = &f.constant_anchor {
            if let Ok(Some(c)) = parser.stable_constant(cid.as_str()) {
                let condition = cat("result == ", c.rust_expr.as_str());
                out.push(read_condition(condition.as_str(), &f.function_sig));
            }
        } else if let Some(fid) = &f.formula_anchor {
            if let Some(x) = parser.stable_formula(fid.as_str()) {
                let condition = trim(x.latex_body.as_str());
                out.push(read_condition(condition.as_str(), &f.function_sig));
            }
        } else {
            let name = match &f.spec_name_override {
                Some(n) => n.as_str().to_owned(),
                None => rust_to_spec_name(f.function_name.as_str()),
            };
            if let Some(x) = find_spec_function(parser, section.as_str(), name.as_str()) {
                return read_contracts(&x.contracts, &f.function_sig);
            }
        }
    }
    proof {
        assert(reading_views(out@) =~= function_readings(*f, parser.read()));
    }
    out
}

/// The texts whose expressions are wanted when a function is enriched.
pub fn wanted_expressions(f: &FunctionToVerify, parser: &SpecParser) -> (r: Vec<String>)
    ensures
        ({
            let rs = function_readings(*f, parser.read());
            text::views(r@) == expressions_in(rs, rs.len() as int)
        }),
{
    let readings = readings_for(f, parser);
    let ghost rv = reading_views(readings@);
    let mut out: Vec<String> = Vec::new();
    let mut i: usize = 0;
    proof {
        assert(text::views(out@) =~= seq![]);
        assert(rv.len() == readings@.len());
    }
    while i < readings.len()
        invariant
            i <= readings.len(),
            rv == reading_views(readings@),
            text::views(out@) == expressions_in(rv, i as int),
        decreases readings.len() - i,
    {
        proof {
            assert(rv[i as int] == readings@[i as int]@);
            assert(rv.len() == readings@.len());
        }
        if let Some(s) = &readings[i].expression {
            let ghost now = out@;
            out.push(s.as_str().to_owned());
            proof {
                assert(text::views(out@) =~= text::views(now).push(s@));
            }
        }
        i += 1;
    }
    out
}

// ---------------------------------------------------------------------------
// All functions
// ---------------------------------------------------------------------------
/// How many contracts the specification gives the first `n` functions.
pub open spec fn total_given(
    fs: Seq<FunctionToVerify>,
    v: Seq<SectionView>,
    parsed: Parsed,
    n: int,
) -> nat
    decreases n,
{
    if n <= 0 || n > fs.len() {
        0
    } else {
        total_given(fs, v, parsed, n - 1) + (match enrichment(fs[n - 1], v, parsed) {
            Ok((_, k)) => k,
            Err(_) => 0,
        })
    }
}

/// Whether a function is another one but for its contracts.
pub open spec fn same_but_contracts(f: FunctionToVerify, g: FunctionToVerify) -> bool {
    &&& f.file_path == g.file_path
    &&& f.function_name == g.function_name
    &&& f.section == g.section
    &&& f.spec_name_override == g.spec_name_override
    &&& f.formula_anchor == g.formula_anchor
    &&& f.constant_anchor == g.constant_anchor
    &&& f.function_sig == g.function_sig
}

/// Whether a function has the contracts that the specification leaves it with.
pub open spec fn is_enriched(
    f: FunctionToVerify,
    before: FunctionToVerify,
    v: Seq<SectionView>,
    parsed: Parsed,
) -> bool {
    same_but_contracts(f, before) && (enrichment(before, v, parsed) matches Ok((cs, _))
        && attributes::contract_views(f.contracts@) == cs)
}

/// Whether functions have the contracts that the specification leaves them with, and how many it
/// gave them; or, where one refers to something that the specification does not have, whether those
/// before the first such one are enriched and the others are as they were.
pub open spec fn all_enriched(
    now: Seq<FunctionToVerify>,
    before: Seq<FunctionToVerify>,
    v: Seq<SectionView>,
    parsed: Parsed,
    r: Result<u128, String>,
) -> bool {
    &&& now.len() == before.len()
    &&& match r {
        Ok(n) => {
            &&& n == total_given(before, v, parsed, before.len() as int)
            &&& forall|i: int|
                0 <= i < before.len() ==> is_enriched(#[trigger] now[i], before[i], v, parsed)
        },
        Err(e) => exists|k: int|
            {
                &&& 0 <= k < before.len()
                &&& #[trigger] enrichment(before[k], v, parsed) == Err::<
                    (Seq<ContractView>, nat),
                    Seq<char>,
                >(e@)
                &&& forall|i: int|
                    0 <= i < k ==> is_enriched(#[trigger] now[i], before[i], v, parsed)
                &&& forall|i: int| k <= i < before.len() ==> #[trigger] now[i] == before[i]
            },
    }
}

/// Gives functions the contracts of a specification, where the expressions that are wanted were read,
/// and says how many these are. It stops at the first function that refers to something that the
/// specification does not have.
#[verifier::loop_isolation(false)]
pub fn enrich_with_expressions(
    functions: &mut Vec<FunctionToVerify>,
    parser: &SpecParser,
    parsed: &Vec<(String, Rc<Expr>)>,
) -> (r: Result<u128, String>)
    ensures
        all_enriched(final(functions)@, old(functions)@, parser.read(), parsed@, r),
{
    let ghost before = functions@;
    let ghost v = parser.read();
    let mut count: u128 = 0;
    let n: usize = functions.len();
    let mut i: usize = 0;
    while i < n
        invariant
            i <= n,
            functions@.len() == n,
            before.len() == n,
            count <= i * 0xffff_ffff_ffff_ffff,
            count == total_given(before, v, parsed@, i as int),
            forall|k: int|
                0 <= k < i ==> is_enriched(#[trigger] functions@[k], before[k], v, parsed@),
            forall|k: int| i <= k < n ==> #[trigger] functions@[k] == before[k],
        decreases n - i,
    {
        match enrich_function(&functions[i], parser, parsed) {
            Ok((cs, k)) => {
                proof {
                    assert(functions@[i as int] == before[i as int]);
                    assert(i * 0xffff_ffff_ffff_ffff + 0xffff_ffff_ffff_ffff == (i + 1)
                        * 0xffff_ffff_ffff_ffff) by (nonlinear_arith);
                    assert(i * 0xffff_ffff_ffff_ffff <= 0xffff_ffff_ffff_ffff
                        * 0xffff_ffff_ffff_ffff) by (nonlinear_arith)
                        requires
                            0 <= i <= 0xffff_ffff_ffff_ffff,
                    ;
                }
                functions[i].contracts = cs;
                count = count + k as u128;
            },
            Err(e) => {
                return Err(e);
            },
        }
        i += 1;
    }
    Ok(count)
}

/// Every expression is what its text is read as.
pub open spec fn faithful(parsed: Parsed) -> bool {
    forall|i: int|
        0 <= i < parsed.len() ==> expression_read((#[trigger] parsed[i]).0@) == Some(
            expr_view(*parsed[i].1),
        )
}

/// Every text that is read out of the specification for a function and is Rust has its expression.
pub open spec fn covers(parsed: Parsed, f: FunctionToVerify, v: Seq<SectionView>) -> bool {
    let rs = function_readings(f, v);
    forall|j: int|
        0 <= j < rs.len() && (#[trigger] rs[j]).valid ==> reading_expr(parsed, rs[j]) is Some
}

proof fn lemma_parsed(parsed: Parsed, s: Seq<char>, i: int)
    requires
        0 <= i <= parsed.len(),
    ensures
        parsed_from(parsed, s, i) is Some <==> exists|j: int|
            i <= j < parsed.len() && (#[trigger] parsed[j]).0@ == s,
        parsed_from(parsed, s, i) matches Some(e) ==> exists|j: int|
            i <= j < parsed.len() && (#[trigger] parsed[j]).0@ == s && parsed[j].1 == e,
    decreases parsed.len() - i,
{
    if i < parsed.len() && parsed[i].0@ != s {
        lemma_parsed(parsed, s, i + 1);
    }
}

proof fn lemma_covers_more(parsed: Parsed, more: Parsed, f: FunctionToVerify, v: Seq<SectionView>)
    requires
        parsed.is_prefix_of(more),
        covers(parsed, f, v),
    ensures
        covers(more, f, v),
{
    let rs = function_readings(f, v);
    assert forall|j: int| 0 <= j < rs.len() && (#[trigger] rs[j]).valid implies reading_expr(
        more,
        rs[j],
    ) is Some by {
        let s = rs[j].expression->0;
        assert(reading_expr(parsed, rs[j]) is Some);
        lemma_parsed(parsed, s, 0);
        lemma_parsed(more, s, 0);
        let k = choose|k: int| 0 <= k < parsed.len() && (#[trigger] parsed[k]).0@ == s;
        assert(more[k] == parsed[k]);
    }
}

proof fn lemma_wanted(rs: Seq<ReadingView>, n: int, j: int)
    requires
        0 <= j < n <= rs.len(),
        rs[j].expression is Some,
    ensures
        exists|k: int|
            0 <= k < expressions_in(rs, n).len() && #[trigger] expressions_in(rs, n)[k]
                == rs[j].expression->0,
    decreases n,
{
    let now = expressions_in(rs, n);
    if j < n - 1 {
        lemma_wanted(rs, n - 1, j);
        let had = expressions_in(rs, n - 1);
        let k = choose|k: int| 0 <= k < had.len() && #[trigger] had[k] == rs[j].expression->0;
        assert(now[k] == had[k]);
    } else {
        assert(now[now.len() - 1] == rs[j].expression->0);
    }
}

proof fn lemma_readings_are_read(f: FunctionToVerify, v: Seq<SectionView>, j: int)
    requires
        0 <= j < function_readings(f, v).len(),
    ensures
        ({
            let r = function_readings(f, v)[j];
            r.valid <==> r.expression is Some && expression_read(r.expression->0) is Some
        }),
{
}

/// Reads the expressions that a function wants.
fn read_wanted(f: &FunctionToVerify, parser: &SpecParser, parsed: &mut Vec<(String, Rc<Expr>)>)
    requires
        faithful(old(parsed)@),
    ensures
        faithful(final(parsed)@),
        old(parsed)@.is_prefix_of(final(parsed)@),
        covers(final(parsed)@, *f, parser.read()),
{
    let ghost before = parsed@;
    let wanted = wanted_expressions(f, parser);
    let ghost wv = text::views(wanted@);
    let mut i: usize = 0;
    while i < wanted.len()
        invariant
            i <= wanted@.len(),
            wv == text::views(wanted@),
            faithful(parsed@),
            before.is_prefix_of(parsed@),
            forall|k: int|
                0 <= k < i && expression_read(#[trigger] wv[k]) is Some ==> exists|j: int|
                    0 <= j < parsed@.len() && (#[trigger] parsed@[j]).0@ == wv[k],
        decreases wanted@.len() - i,
    {
        let ghost had = parsed@;
        proof {
            assert(wv[i as int] == wanted@[i as int]@);
        }
        if let Some(e) = read_expression(wanted[i].as_str()) {
            parsed.push((wanted[i].as_str().to_owned(), e));
            proof {
                assert(parsed@[had.len() as int].0@ == wv[i as int]);
                assert forall|k: int|
                    0 <= k < i + 1 && expression_read(#[trigger] wv[k]) is Some implies exists|j: int|
                    0 <= j < parsed@.len() && (#[trigger] parsed@[j]).0@ == wv[k] by {
                    if k < i {
                        let j = choose|j: int| 0 <= j < had.len() && (#[trigger] had[j]).0@ == wv[k];
                        assert(parsed@[j] == had[j]);
                    }
                }
            }
        }
        i += 1;
    }
    proof {
        let v = parser.read();
        let rs = function_readings(*f, v);
        assert(wv.len() == wanted@.len());
        assert forall|j: int| 0 <= j < rs.len() && (#[trigger] rs[j]).valid implies reading_expr(
            parsed@,
            rs[j],
        ) is Some by {
            lemma_readings_are_read(*f, v, j);
            lemma_wanted(rs, rs.len() as int, j);
            let k = choose|k: int| 0 <= k < wv.len() && #[trigger] wv[k] == rs[j].expression->0;
            assert(expression_read(wv[k]) is Some);
            lemma_parsed(parsed@, rs[j].expression->0, 0);
        }
    }
}

/// Gives functions the contracts of a specification, and says how many these are. It stops at the
/// first function that refers to something that the specification does not have; the functions before
/// it are enriched then, and the others are as they were.
pub fn enrich_functions_with_spec(functions: &mut Vec<FunctionToVerify>, parser: &SpecParser) -> (r:
    Result<u128, String>)
    ensures
        exists|parsed: Parsed|
            #![trigger faithful(parsed)]
            {
                &&& faithful(parsed)
                &&& forall|i: int|
                    0 <= i < old(functions)@.len() ==> covers(
                        parsed,
                        #[trigger] old(functions)@[i],
                        parser.read(),
                    )
                &&& all_enriched(final(functions)@, old(functions)@, parser.read(), parsed, r)
            },
{
    let ghost before = functions@;
    let mut parsed: Vec<(String, Rc<Expr>)> = Vec::new();
    let mut i: usize = 0;
    while i < functions.len()
        invariant
            i <= functions@.len(),
            functions@ == before,
            faithful(parsed@),
            forall|k: int| 0 <= k < i ==> covers(parsed@, #[trigger] before[k], parser.read()),
        decreases functions@.len() - i,
    {
        let ghost had = parsed@;
        read_wanted(&functions[i], parser, &mut parsed);
        proof {
            assert forall|k: int| 0 <= k < i + 1 implies covers(
                parsed@,
                #[trigger] before[k],
                parser.read(),
            ) by {
                if k < i {
                    lemma_covers_more(had, parsed@, before[k], parser.read());
                }
            }
        }
        i += 1;
    }
    let r = enrich_with_expressions(functions, parser, &parsed);
    proof {
        assert(faithful(parsed@));
    }
    r
}

// ---------------------------------------------------------------------------
// Anchors that are passed over
// ---------------------------------------------------------------------------
/// A function whose anchor is passed over, because it lies outside the section that the function is
/// locked to.
#[derive(Debug)]
pub struct SkippedAnchor {
    pub function_name: String,
    pub anchor: SecondarySpecAnchor,
    /// The section that the function is locked to.
    pub cited: String,
    /// The section in which the anchor stands.
    pub defined: String,
}

/// A function whose anchor is passed over, as a mathematical value.
#[verifier::ext_equal]
pub struct SkippedView {
    pub function_name: Seq<char>,
    pub anchor: AnchorView,
    pub cited: Seq<char>,
    pub defined: Seq<char>,
}

impl View for SkippedAnchor {
    type V = SkippedView;

    open spec fn view(&self) -> SkippedView {
        SkippedView {
            function_name: self.function_name@,
            anchor: self.anchor@,
            cited: self.cited@,
            defined: self.defined@,
        }
    }
}

/// Functions whose anchors are passed over, as mathematical values.
pub open spec fn skipped_views(v: Seq<SkippedAnchor>) -> Seq<SkippedView> {
    v.map_values(|x: SkippedAnchor| x@)
}

/// What the user is told of an anchor that is passed over.
pub open spec fn skipped_message(x: SkippedView) -> Seq<char> {
    match x.anchor {
        AnchorView::Constant(id) => "Warning: section mismatch for `"@ + id
            + "`: #[spec_locked] cites §"@ + x.cited + " but constant is defined under §"@ + x.defined
            + ". Skipping constant enrichment for this function."@,
        AnchorView::Formula(id) => "Warning: section mismatch for formula `"@ + id
            + "`: #[spec_locked] cites §"@ + x.cited + " but formula is defined under §"@ + x.defined
            + ". Skipping formula enrichment for this function."@,
    }
}

impl SkippedAnchor {
    /// What the user is told of it.
    pub fn message(&self) -> (r: String)
        ensures
            r@ == skipped_message(self@),
    {
        match &self.anchor {
            SecondarySpecAnchor::Constant(id) => {
                let a = cat3(
                    "Warning: section mismatch for `",
                    id.as_str(),
                    "`: #[spec_locked] cites §",
                );
                let b = cat3(a.as_str(), self.cited.as_str(), " but constant is defined under §");
                cat3(
                    b.as_str(),
                    self.defined.as_str(),
                    ". Skipping constant enrichment for this function.",
                )
            },
            SecondarySpecAnchor::Formula(id) => {
                let a = cat3(
                    "Warning: section mismatch for formula `",
                    id.as_str(),
                    "`: #[spec_locked] cites §",
                );
                let b = cat3(a.as_str(), self.cited.as_str(), " but formula is defined under §");
                cat3(
                    b.as_str(),
                    self.defined.as_str(),
                    ". Skipping formula enrichment for this function.",
                )
            },
        }
    }
}

/// Where the anchor of a function stands in the specification; nothing for a function without a
/// section or an anchor, and an error for an anchor that the specification does not have.
pub open spec fn anchor_place(f: FunctionToVerify, v: Seq<SectionView>) -> Result<
    Option<(AnchorView, Seq<char>)>,
    (),
> {
    match (f.section, f.constant_anchor, f.formula_anchor) {
        (Some(_), Some(cid), _) => match orange_paper::stable_constant(v, cid@) {
            Ok(Some(c)) => Ok(Some((AnchorView::Constant(cid@), c.section))),
            _ => Err(()),
        },
        (Some(_), None, Some(fid)) => match orange_paper::stable_formula(v, fid@) {
            Some(x) => Ok(Some((AnchorView::Formula(fid@), x.section))),
            None => Err(()),
        },
        _ => Ok(None),
    }
}

/// The function, where its anchor lies outside the section that it is locked to.
pub open spec fn skipped_anchor(f: FunctionToVerify, v: Seq<SectionView>) -> Option<SkippedView> {
    match (anchor_place(f, v), f.section) {
        (Ok(Some((anchor, defined))), Some(section)) => if orange_paper::number_extends(
            defined,
            section@,
        ) {
            None
        } else {
            Some(
                SkippedView {
                    function_name: f.function_name@,
                    anchor,
                    cited: section@,
                    defined,
                },
            )
        },
        _ => None,
    }
}

/// The functions from `i` on whose anchors are passed over, up to the first that refers to something
/// that the specification does not have.
pub open spec fn skipped_from(fs: Seq<FunctionToVerify>, v: Seq<SectionView>, i: int) -> Seq<
    SkippedView,
>
    decreases fs.len() - i,
{
    if i < 0 || i >= fs.len() || anchor_place(fs[i], v) is Err {
        seq![]
    } else {
        match skipped_anchor(fs[i], v) {
            Some(x) => seq![x] + skipped_from(fs, v, i + 1),
            None => skipped_from(fs, v, i + 1),
        }
    }
}

/// The anchor of a function and the section in which it stands.
fn place_of_anchor(f: &FunctionToVerify, parser: &SpecParser) -> (r: Result<
    Option<(SecondarySpecAnchor, String)>,
    (),
>)
    ensures
        match r {
            Ok(Some((a, s))) => anchor_place(*f, parser.read()) == Ok::<
                Option<(AnchorView, Seq<char>)>,
                (),
            >(Some((a@, s@))),
            Ok(None) => anchor_place(*f, parser.read()) == Ok::<
                Option<(AnchorView, Seq<char>)>,
                (),
            >(None),
            Err(_) => anchor_place(*f, parser.read()) is Err,
        },
{
    if f.section.is_none() {
        return Ok(None);
    }
    if let Some(cid) = &f.constant_anchor {
        return match parser.stable_constant(cid.as_str()) {
            Ok(Some(c)) => Ok(
                Some(
                    (
                        SecondarySpecAnchor::Constant(cid.as_str().to_owned()),
                        c.section.as_str().to_owned(),
                    ),
                ),
            ),
            _ => Err(()),
        };
    }
    if let Some(fid) = &f.formula_anchor {
        return match parser.stable_formula(fid.as_str()) {
            Some(x) => Ok(
                Some(
                    (
                        SecondarySpecAnchor::Formula(fid.as_str().to_owned()),
                        x.section.as_str().to_owned(),
                    ),
                ),
            ),
            None => Err(()),
        };
    }
    Ok(None)
}

/// The functions, in order, that are passed over because their anchor lies outside the section that
/// they are locked to. Like enrichment it stops at the first function that refers to something that
/// the specification does not have.
pub fn skipped_anchors(functions: &Vec<FunctionToVerify>, parser: &SpecParser) -> (r: Vec<
    SkippedAnchor,
>)
    ensures
        skipped_views(r@) == skipped_from(functions@, parser.read(), 0),
{
    let ghost v = parser.read();
    let mut out: Vec<SkippedAnchor> = Vec::new();
    let mut i: usize = 0;
    proof {
        assert(skipped_views(out@) + skipped_from(functions@, v, 0) =~= skipped_from(
            functions@,
            v,
            0,
        ));
    }
    while i < functions.len()
        invariant
            i <= functions@.len(),
            v == parser.read(),
            skipped_views(out@) + skipped_from(functions@, v, i as int) == skipped_from(
                functions@,
                v,
                0,
            ),
        decreases functions@.len() - i,
    {
        let f = &functions[i];
        match place_of_anchor(f, parser) {
            Err(_) => {
                proof {
                    assert(skipped_views(out@) + Seq::<SkippedView>::empty() =~= skipped_views(out@));
                }
                return out;
            },
            Ok(Some((anchor, defined))) => {
                if let Some(section) = &f.section {
                    if !section_id_subsumes_formula_section(section.as_str(), defined.as_str()) {
                        let ghost had = out@;
                        let x = SkippedAnchor {
                            function_name: f.function_name.as_str().to_owned(),
                            anchor,
                            cited: section.as_str().to_owned(),
                            defined,
                        };
                        let ghost xv = x@;
                        out.push(x);
                        proof {
                            assert(skipped_anchor(*f, v) == Some(xv));
                            assert(skipped_views(out@) =~= skipped_views(had).push(xv));
                            assert(skipped_views(had) + (seq![xv] + skipped_from(
                                functions@,
                                v,
                                i + 1,
                            )) =~= skipped_views(out@) + skipped_from(functions@, v, i + 1));
                        }
                    }
                }
            },
            Ok(None) => {},
        }
        i += 1;
    }
    proof {
        assert(skipped_views(out@) + Seq::<SkippedView>::empty() =~= skipped_views(out@));
    }
    out
}

/// A function whose anchor is passed over keeps its contracts.
pub proof fn law_skipped_function_keeps_contracts(
    f: FunctionToVerify,
    v: Seq<SectionView>,
    parsed: Parsed,
)
    requires
        skipped_anchor(f, v) is Some,
    ensures
        enrichment(f, v, parsed) == Ok::<(Seq<ContractView>, nat), Seq<char>>(
            (attributes::contract_views(f.contracts@), 0),
        ),
{
}

/// Enrichment stops at exactly those functions whose anchor the specification does not have.
pub proof fn law_enrichment_stops_at_missing_anchors(
    f: FunctionToVerify,
    v: Seq<SectionView>,
    parsed: Parsed,
)
    ensures
        enrichment(f, v, parsed) is Err <==> anchor_place(f, v) is Err,
{
}

// ---------------------------------------------------------------------------
// What enrichment keeps
// ---------------------------------------------------------------------------
proof fn lemma_restored_extends(cs: Seq<ContractView>, others: Seq<ContractView>, n: int)
    requires
        0 <= n <= others.len(),
    ensures
        cs.is_prefix_of(restored(cs, others, n)),
        forall|i: int|
            0 <= i < n ==> has_condition(
                restored(cs, others, n),
                (#[trigger] others[i]).condition,
            ),
    decreases n,
{
    if n > 0 {
        lemma_restored_extends(cs, others, n - 1);
        let done = restored(cs, others, n - 1);
        let now = restored(cs, others, n);
        assert forall|i: int| 0 <= i < n implies has_condition(
            now,
            (#[trigger] others[i]).condition,
        ) by {
            if i < n - 1 {
                let k = choose|k: int|
                    0 <= k < done.len() && (#[trigger] done[k]).condition == others[i].condition;
                assert(now[k] == done[k]);
            } else if !has_condition(done, others[i].condition) {
                assert(now[done.len() as int] == others[i]);
            }
        }
    }
}

proof fn lemma_with_contracts_extends(
    cs: Seq<ContractView>,
    given: Seq<spec_types::ContractView>,
    readings: Seq<ReadingView>,
    parsed: Parsed,
    n: int,
)
    requires
        0 <= n <= given.len(),
    ensures
        cs.is_prefix_of(with_contracts(cs, given, readings, parsed, n).0),
        with_contracts(cs, given, readings, parsed, n).0.len() == cs.len() + with_contracts(
            cs,
            given,
            readings,
            parsed,
            n,
        ).1,
    decreases n,
{
    if n > 0 {
        lemma_with_contracts_extends(cs, given, readings, parsed, n - 1);
    }
}

/// Preconditions and trusted statements of the code stay, first and in their order, whatever the
/// specification gives: of a function that is locked to it.
pub proof fn law_code_assumptions_stay(f: FunctionToVerify, v: Seq<SectionView>, parsed: Parsed)
    ensures
        ({
            let cs = attributes::contract_views(f.contracts@);
            enrichment(f, v, parsed) matches Ok((now, _)) ==> now == cs || kept(
                cs,
                cs.len() as int,
            ).is_prefix_of(now)
        }),
{
    let cs = attributes::contract_views(f.contracts@);
    let stay = kept(cs, cs.len() as int);
    let own = manual(cs, cs.len() as int);
    match enrichment(f, v, parsed) {
        Ok((now, _)) => {
            if now != cs {
                lemma_restored_extends(stay, own, own.len() as int);
                if f.constant_anchor is None && f.formula_anchor is Some {
                    match orange_paper::stable_formula(v, f.formula_anchor->0@) {
                        Some(x) => {
                            let r = reading_of(chars::trimmed(x.latex_body), f.function_sig);
                            let more = stay.push(
                                derived(
                                    ContractType::Ensures,
                                    chars::trimmed(x.latex_body),
                                    reading_expr(parsed, r),
                                ),
                            );
                            lemma_restored_extends(more, own, own.len() as int);
                        },
                        None => {},
                    }
                }
                if f.constant_anchor is None && f.formula_anchor is None {
                    let name = match f.spec_name_override {
                        Some(n) => n@,
                        None => spec_name(f.function_name@),
                    };
                    match spec_function(v, f.section->0@, name) {
                        Some(x) => {
                            let rs = readings_of(x.contracts, f.function_sig);
                            let n = x.contracts.len() as int;
                            lemma_with_contracts_extends(stay, x.contracts, rs, parsed, n);
                            lemma_restored_extends(
                                with_contracts(stay, x.contracts, rs, parsed, n).0,
                                own,
                                own.len() as int,
                            );
                        },
                        None => {},
                    }
                }
            }
        },
        Err(_) => {},
    }
}

/// Where the specification gives a function that is not anchored to a constant no contract, each of
/// its postconditions in the code is still among its conditions.
pub proof fn law_postconditions_stay_without_replacement(
    f: FunctionToVerify,
    v: Seq<SectionView>,
    parsed: Parsed,
    i: int,
)
    requires
        f.constant_anchor is None,
        0 <= i < f.contracts@.len(),
        f.contracts@[i].contract_type == ContractType::Ensures,
        !f.contracts@[i].is_spec_derived,
    ensures
        enrichment(f, v, parsed) matches Ok((now, n)) ==> (n == 0 ==> has_condition(
            now,
            f.contracts@[i].condition@,
        )),
{
    let cs = attributes::contract_views(f.contracts@);
    let stay = kept(cs, cs.len() as int);
    let own = manual(cs, cs.len() as int);
    assert(cs[i] == f.contracts@[i]@);
    lemma_manual_has(cs, cs.len() as int, i);
    let k = choose|k: int| 0 <= k < own.len() && #[trigger] own[k] == cs[i];
    lemma_restored_extends(stay, own, own.len() as int);
    assert(has_condition(restored(stay, own, own.len() as int), own[k].condition));
    if f.formula_anchor is None && f.section is Some {
        let name = match f.spec_name_override {
            Some(n) => n@,
            None => spec_name(f.function_name@),
        };
        match spec_function(v, f.section->0@, name) {
            Some(x) => {
                let rs = readings_of(x.contracts, f.function_sig);
                let n = x.contracts.len() as int;
                lemma_with_contracts_extends(stay, x.contracts, rs, parsed, n);
                assert(with_contracts(stay, x.contracts, rs, parsed, n).1 == 0 ==> with_contracts(
                    stay,
                    x.contracts,
                    rs,
                    parsed,
                    n,
                ).0 =~= stay);
            },
            None => {},
        }
    }
}

proof fn lemma_manual_has(cs: Seq<ContractView>, n: int, i: int)
    requires
        0 <= i < n <= cs.len(),
        cs[i].contract_type == ContractType::Ensures,
        !cs[i].is_spec_derived,
    ensures
        exists|k: int| 0 <= k < manual(cs, n).len() && #[trigger] manual(cs, n)[k] == cs[i],
    decreases n,
{
    if i < n - 1 {
        lemma_manual_has(cs, n - 1, i);
        let k = choose|k: int|
            0 <= k < manual(cs, n - 1).len() && #[trigger] manual(cs, n - 1)[k] == cs[i];
        assert(manual(cs, n)[k] == cs[i]);
    } else {
        assert(manual(cs, n)[manual(cs, n - 1).len() as int] == cs[i]);
    }
}

/// Contracts from the specification that have no expression.
pub open spec fn without_expression(cs: Seq<ContractView>) -> bool {
    exists|i: int| 0 <= i < cs.len() && (#[trigger] cs[i]).is_spec_derived && cs[i].expr is None
}

proof fn lemma_kept_is_written(cs: Seq<ContractView>, n: int)
    ensures
        forall|i: int| 0 <= i < kept(cs, n).len() ==> !(#[trigger] kept(cs, n)[i]).is_spec_derived,
        forall|i: int|
            0 <= i < manual(cs, n).len() ==> !(#[trigger] manual(cs, n)[i]).is_spec_derived,
    decreases n,
{
    if 0 < n <= cs.len() {
        lemma_kept_is_written(cs, n - 1);
    }
}

proof fn lemma_restored_is_read(cs: Seq<ContractView>, others: Seq<ContractView>, n: int)
    requires
        !without_expression(cs),
        forall|i: int| 0 <= i < others.len() ==> !(#[trigger] others[i]).is_spec_derived,
    ensures
        !without_expression(restored(cs, others, n)),
    decreases n,
{
    if 0 < n <= others.len() {
        lemma_restored_is_read(cs, others, n - 1);
        lemma_pushed_is_read(restored(cs, others, n - 1), others[n - 1]);
    }
}

proof fn lemma_pushed_is_read(cs: Seq<ContractView>, c: ContractView)
    requires
        !without_expression(cs),
        c.is_spec_derived ==> c.expr is Some,
    ensures
        !without_expression(cs.push(c)),
{
    let now = cs.push(c);
    assert forall|i: int| 0 <= i < now.len() implies !((#[trigger] now[i]).is_spec_derived
        && now[i].expr is None) by {
        if i < cs.len() {
            assert(now[i] == cs[i]);
        }
    }
}

proof fn lemma_with_contracts_is_read(
    cs: Seq<ContractView>,
    given: Seq<spec_types::ContractView>,
    readings: Seq<ReadingView>,
    parsed: Parsed,
    n: int,
)
    requires
        !without_expression(cs),
        readings.len() == given.len(),
        forall|j: int|
            0 <= j < readings.len() && (#[trigger] readings[j]).valid ==> reading_expr(
                parsed,
                readings[j],
            ) is Some,
    ensures
        !without_expression(with_contracts(cs, given, readings, parsed, n).0),
    decreases n,
{
    if 0 < n <= given.len() {
        lemma_with_contracts_is_read(cs, given, readings, parsed, n - 1);
        let done = with_contracts(cs, given, readings, parsed, n - 1).0;
        let c = chars::trimmed(given[n - 1].condition);
        if taken(done, c, readings[n - 1]) {
            lemma_pushed_is_read(
                done,
                derived(
                    code_kind(given[n - 1].contract_type),
                    c,
                    reading_expr(parsed, readings[n - 1]),
                ),
            );
        }
    }
}

/// Every contract that the specification gives a function has its expression: where the expressions
/// that the function wants were read, and the function had no contract from a specification before.
pub proof fn law_added_contracts_have_expressions(
    f: FunctionToVerify,
    v: Seq<SectionView>,
    parsed: Parsed,
)
    requires
        covers(parsed, f, v),
        forall|i: int| 0 <= i < f.contracts@.len() ==> !(#[trigger] f.contracts@[i]).is_spec_derived,
    ensures
        enrichment(f, v, parsed) matches Ok((now, _)) ==> forall|i: int|
            0 <= i < now.len() && (#[trigger] now[i]).is_spec_derived ==> now[i].expr is Some,
{
    let cs = attributes::contract_views(f.contracts@);
    let stay = kept(cs, cs.len() as int);
    let own = manual(cs, cs.len() as int);
    lemma_kept_is_written(cs, cs.len() as int);
    assert forall|i: int| 0 <= i < cs.len() implies !(#[trigger] cs[i]).is_spec_derived by {
        assert(cs[i] == f.contracts@[i]@);
    }
    assert(!without_expression(cs));
    assert(!without_expression(stay));
    let rs = function_readings(f, v);
    if let Ok((now, _)) = enrichment(f, v, parsed) {
        assert(!without_expression(now)) by {
            if let Some(section) = f.section {
                if let Some(cid) = f.constant_anchor {
                    if let Ok(Some(c)) = orange_paper::stable_constant(v, cid@) {
                        let r = reading_of(constant_condition(c), f.function_sig);
                        assert(rs[0] == r);
                        if r.valid {
                            lemma_pushed_is_read(
                                stay,
                                derived(
                                    ContractType::Ensures,
                                    r.expression->0,
                                    reading_expr(parsed, r),
                                ),
                            );
                        }
                    }
                } else if let Some(fid) = f.formula_anchor {
                    if let Some(x) = orange_paper::stable_formula(v, fid@) {
                        let r = reading_of(chars::trimmed(x.latex_body), f.function_sig);
                        assert(rs[0] == r);
                        lemma_restored_is_read(stay, own, own.len() as int);
                        if r.valid {
                            let c = derived(
                                ContractType::Ensures,
                                chars::trimmed(x.latex_body),
                                reading_expr(parsed, r),
                            );
                            lemma_pushed_is_read(stay, c);
                            lemma_restored_is_read(stay.push(c), own, own.len() as int);
                        }
                    }
                } else {
                    let name = match f.spec_name_override {
                        Some(n) => n@,
                        None => spec_name(f.function_name@),
                    };
                    if let Some(x) = spec_function(v, section@, name) {
                        let n = x.contracts.len() as int;
                        assert(rs == readings_of(x.contracts, f.function_sig));
                        lemma_with_contracts_is_read(stay, x.contracts, rs, parsed, n);
                        lemma_restored_is_read(
                            with_contracts(stay, x.contracts, rs, parsed, n).0,
                            own,
                            own.len() as int,
                        );
                    }
                }
            }
        }
    }
}

/// The expression of a contract that comes out of faithful readings is what its text is read as.
pub proof fn law_expressions_are_what_is_read(parsed: Parsed, r: ReadingView)
    requires
        faithful(parsed),
    ensures
        reading_expr(parsed, r) matches Some(e) ==> expression_read(r.expression->0) == Some(
            expr_view(*e),
        ),
{
    if let Some(s) = r.expression {
        lemma_parsed(parsed, s, 0);
    }
}

/// How many of the first `n` contracts come from the specification.
pub open spec fn derived_among(cs: Seq<ContractView>, n: int) -> nat
    decreases n,
{
    if n <= 0 || n > cs.len() {
        0
    } else {
        derived_among(cs, n - 1) + (if cs[n - 1].is_spec_derived {
            1nat
        } else {
            0nat
        })
    }
}

/// How many contracts of the first `n` functions come from the specification.
pub open spec fn derived_in_all(fs: Seq<FunctionToVerify>, n: int) -> nat
    decreases n,
{
    if n <= 0 || n > fs.len() {
        0
    } else {
        let cs = attributes::contract_views(fs[n - 1].contracts@);
        derived_in_all(fs, n - 1) + derived_among(cs, cs.len() as int)
    }
}

proof fn lemma_none_derived(cs: Seq<ContractView>, n: int)
    requires
        forall|i: int| 0 <= i < cs.len() ==> !(#[trigger] cs[i]).is_spec_derived,
    ensures
        derived_among(cs, n) == 0,
    decreases n,
{
    if 0 < n <= cs.len() {
        lemma_none_derived(cs, n - 1);
    }
}

proof fn lemma_derived_same_start(a: Seq<ContractView>, b: Seq<ContractView>, n: int)
    requires
        0 <= n <= a.len(),
        n <= b.len(),
        forall|i: int| 0 <= i < n ==> #[trigger] a[i] == b[i],
    ensures
        derived_among(a, n) == derived_among(b, n),
    decreases n,
{
    if n > 0 {
        lemma_derived_same_start(a, b, n - 1);
        assert(a[n - 1] == b[n - 1]);
    }
}

proof fn lemma_derived_push(cs: Seq<ContractView>, c: ContractView)
    ensures
        derived_among(cs.push(c), cs.len() as int + 1) == derived_among(cs, cs.len() as int) + (
        if c.is_spec_derived {
            1nat
        } else {
            0nat
        }),
{
    lemma_derived_same_start(cs, cs.push(c), cs.len() as int);
}

proof fn lemma_restored_count(cs: Seq<ContractView>, others: Seq<ContractView>, n: int)
    requires
        forall|i: int| 0 <= i < others.len() ==> !(#[trigger] others[i]).is_spec_derived,
    ensures
        derived_among(restored(cs, others, n), restored(cs, others, n).len() as int) == derived_among(
            cs,
            cs.len() as int,
        ),
    decreases n,
{
    if 0 < n <= others.len() {
        lemma_restored_count(cs, others, n - 1);
        lemma_derived_push(restored(cs, others, n - 1), others[n - 1]);
    }
}

proof fn lemma_with_contracts_count(
    cs: Seq<ContractView>,
    given: Seq<spec_types::ContractView>,
    readings: Seq<ReadingView>,
    parsed: Parsed,
    n: int,
)
    ensures
        ({
            let (now, count) = with_contracts(cs, given, readings, parsed, n);
            derived_among(now, now.len() as int) == derived_among(cs, cs.len() as int) + count
        }),
    decreases n,
{
    if 0 < n <= given.len() {
        lemma_with_contracts_count(cs, given, readings, parsed, n - 1);
        let done = with_contracts(cs, given, readings, parsed, n - 1).0;
        let c = chars::trimmed(given[n - 1].condition);
        lemma_derived_push(
            done,
            derived(
                code_kind(given[n - 1].contract_type),
                c,
                reading_expr(parsed, readings[n - 1]),
            ),
        );
    }
}

/// The number that is reported for a function is that of its contracts from the specification, where
/// it had none of those before.
pub proof fn law_given_contracts_are_counted(
    f: FunctionToVerify,
    v: Seq<SectionView>,
    parsed: Parsed,
)
    requires
        forall|i: int| 0 <= i < f.contracts@.len() ==> !(#[trigger] f.contracts@[i]).is_spec_derived,
    ensures
        enrichment(f, v, parsed) matches Ok((now, n)) ==> n == derived_among(now, now.len() as int),
{
    let cs = attributes::contract_views(f.contracts@);
    let stay = kept(cs, cs.len() as int);
    let own = manual(cs, cs.len() as int);
    lemma_kept_is_written(cs, cs.len() as int);
    assert forall|i: int| 0 <= i < cs.len() implies !(#[trigger] cs[i]).is_spec_derived by {
        assert(cs[i] == f.contracts@[i]@);
    }
    lemma_none_derived(cs, cs.len() as int);
    lemma_none_derived(stay, stay.len() as int);
    lemma_restored_count(stay, own, own.len() as int);
    if let Some(section) = f.section {
        if let Some(cid) = f.constant_anchor {
            if let Ok(Some(c)) = orange_paper::stable_constant(v, cid@) {
                let r = reading_of(constant_condition(c), f.function_sig);
                lemma_derived_push(
                    stay,
                    derived(ContractType::Ensures, r.expression->0, reading_expr(parsed, r)),
                );
            }
        } else if let Some(fid) = f.formula_anchor {
            if let Some(x) = orange_paper::stable_formula(v, fid@) {
                let r = reading_of(chars::trimmed(x.latex_body), f.function_sig);
                let c = derived(
                    ContractType::Ensures,
                    chars::trimmed(x.latex_body),
                    reading_expr(parsed, r),
                );
                lemma_derived_push(stay, c);
                lemma_restored_count(stay.push(c), own, own.len() as int);
            }
        } else {
            let name = match f.spec_name_override {
                Some(n) => n@,
                None => spec_name(f.function_name@),
            };
            if let Some(x) = spec_function(v, section@, name) {
                let rs = readings_of(x.contracts, f.function_sig);
                let n = x.contracts.len() as int;
                lemma_with_contracts_count(stay, x.contracts, rs, parsed, n);
                lemma_restored_count(
                    with_contracts(stay, x.contracts, rs, parsed, n).0,
                    own,
                    own.len() as int,
                );
            }
        }
    }
}

proof fn lemma_totals(
    now: Seq<FunctionToVerify>,
    before: Seq<FunctionToVerify>,
    v: Seq<SectionView>,
    parsed: Parsed,
    n: int,
)
    requires
        0 <= n <= before.len(),
        now.len() == before.len(),
        forall|i: int| 0 <= i < before.len() ==> is_enriched(#[trigger] now[i], before[i], v, parsed),
        forall|i: int, j: int|
            0 <= i < before.len() && 0 <= j < before[i].contracts@.len()
                ==> !(#[trigger] before[i].contracts@[j]).is_spec_derived,
    ensures
        total_given(before, v, parsed, n) == derived_in_all(now, n),
    decreases n,
{
    if n > 0 {
        lemma_totals(now, before, v, parsed, n - 1);
        assert(is_enriched(now[n - 1], before[n - 1], v, parsed));
        law_given_contracts_are_counted(before[n - 1], v, parsed);
    }
}

/// The number that enrichment reports is that of the contracts from the specification over all
/// functions, where there were none of those before.
pub proof fn law_all_given_contracts_are_counted(
    now: Seq<FunctionToVerify>,
    before: Seq<FunctionToVerify>,
    v: Seq<SectionView>,
    parsed: Parsed,
    n: u128,
)
    requires
        all_enriched(now, before, v, parsed, Ok(n)),
        forall|i: int, j: int|
            0 <= i < before.len() && 0 <= j < before[i].contracts@.len()
                ==> !(#[trigger] before[i].contracts@[j]).is_spec_derived,
    ensures
        n == derived_in_all(now, now.len() as int),
{
    lemma_totals(now, before, v, parsed, before.len() as int);
}

// ---------------------------------------------------------------------------
// What premises keep out
// ---------------------------------------------------------------------------
/// A word of a text: a run of letters, number signs, underscores and backslashes that is as long as
/// it can be.
pub open spec fn is_word(s: Seq<char>, i: int, j: int) -> bool {
    &&& 0 <= i < j <= s.len()
    &&& forall|k: int| i <= k < j ==> word_sign(#[trigger] s[k])
    &&& i > 0 ==> !word_sign(s[i - 1])
    &&& j < s.len() ==> !word_sign(s[j])
}

/// A sign that belongs to a word.
pub open spec fn word_sign(c: char) -> bool {
    chars::alphabetic(c) || chars::numeric(c) || c == '_' || c == '\\'
}

/// Whether a text names something other than the result: a word that begins with a letter and is not
/// `result`.
pub open spec fn names_input(s: Seq<char>) -> bool {
    exists|i: int, j: int|
        #[trigger] is_word(s, i, j) && chars::alphabetic(s[i]) && s.subrange(i, j) != "result"@
}

/// The texts that stand for the arrow of an implication.
pub open spec fn arrow_text(a: Seq<char>) -> bool {
    a == "\\implies"@ || a == "\\Rightarrow"@ || a == "⇒"@ || a == "→"@ || a == "=>"@
}

/// An arrow is found where one stands, and only there.
pub proof fn law_arrow_is_found(c: Seq<char>)
    ensures
        arrow(c) matches Some(p) ==> exists|a: Seq<char>|
            #![trigger arrow_text(a)]
            arrow_text(a) && text::occurs_at(c, a, p),
        arrow(c) is None ==> forall|a: Seq<char>| #[trigger] arrow_text(a) ==> !text::holds(c, a),
{
    text::lemma_find_has(c, "\\implies"@);
    text::lemma_find_has(c, "\\Rightarrow"@);
    text::lemma_find_has(c, "⇒"@);
    text::lemma_find_has(c, "→"@);
    text::lemma_find_has(c, "=>"@);
    text::lemma_find_from(c, "\\implies"@, 0);
    text::lemma_find_from(c, "\\Rightarrow"@, 0);
    text::lemma_find_from(c, "⇒"@, 0);
    text::lemma_find_from(c, "→"@, 0);
    text::lemma_find_from(c, "=>"@, 0);
    assert(arrow_text("\\implies"@) && arrow_text("\\Rightarrow"@) && arrow_text("⇒"@)
        && arrow_text("→"@) && arrow_text("=>"@));
}

/// Whether a word that names an input begins at `from` or behind it.
spec fn names_input_from(s: Seq<char>, from: int) -> bool {
    exists|i: int, j: int|
        from <= i && #[trigger] is_word(s, i, j) && chars::alphabetic(s[i]) && s.subrange(i, j)
            != "result"@
}

proof fn lemma_words(s: Seq<char>, from: int)
    requires
        0 <= from <= s.len(),
        0 < from < s.len() ==> !word_sign(s[from - 1]) || !word_sign(s[from]),
    ensures
        word_from(s, from) == names_input_from(s, from),
    decreases s.len() - from,
{
    if from < s.len() {
        if !chars::in_class(CharClass::Token, s[from]) {
            lemma_words(s, from + 1);
            if names_input_from(s, from) {
                let (i, j) = choose|i: int, j: int|
                    from <= i && #[trigger] is_word(s, i, j) && chars::alphabetic(s[i])
                        && s.subrange(i, j) != "result"@;
                assert(word_sign(s[i]));
                assert(from + 1 <= i);
                assert(is_word(s, i, j));
            }
            if names_input_from(s, from + 1) {
                let (i, j) = choose|i: int, j: int|
                    from + 1 <= i && #[trigger] is_word(s, i, j) && chars::alphabetic(s[i])
                        && s.subrange(i, j) != "result"@;
                assert(from <= i && is_word(s, i, j));
            }
        } else {
            chars::lemma_run_end(s, from + 1, CharClass::Token);
            let e = chars::run_end(s, from + 1, CharClass::Token);
            assert forall|k: int| from <= k < e implies word_sign(#[trigger] s[k]) by {
                if k > from {
                    assert(chars::in_class(CharClass::Token, s[k]));
                }
            }
            assert(is_word(s, from, e));
            lemma_words(s, e);
            if names_input_from(s, from) {
                let (i, j) = choose|i: int, j: int|
                    from <= i && #[trigger] is_word(s, i, j) && chars::alphabetic(s[i])
                        && s.subrange(i, j) != "result"@;
                if i < e {
                    if i > from {
                        assert(word_sign(s[i - 1]));
                    }
                    assert(i == from);
                    if j < e {
                        assert(word_sign(s[j]));
                    }
                    if e < j {
                        assert(word_sign(s[e]));
                    }
                    assert(j == e);
                } else {
                    assert(is_word(s, i, j));
                }
            }
            if names_input_from(s, e) {
                let (i, j) = choose|i: int, j: int|
                    e <= i && #[trigger] is_word(s, i, j) && chars::alphabetic(s[i]) && s.subrange(
                        i,
                        j,
                    ) != "result"@;
                assert(from <= i && is_word(s, i, j));
            }
        }
    } else if names_input_from(s, from) {
        let (i, j) = choose|i: int, j: int|
            from <= i && #[trigger] is_word(s, i, j) && chars::alphabetic(s[i]) && s.subrange(i, j)
                != "result"@;
        assert(0 <= i < j <= s.len());
    }
}

/// A condition counts as conditional exactly where a word other than `result` that begins with a
/// letter stands before its arrow.
pub proof fn law_conditional_premise_names_an_input(c: Seq<char>)
    ensures
        conditional(c) <==> (arrow(c) matches Some(p) && names_input(c.take(p))),
{
    if let Some(p) = arrow(c) {
        let s = c.take(p);
        lemma_words(s, 0);
        if names_input(s) {
            let (i, j) = choose|i: int, j: int|
                #[trigger] is_word(s, i, j) && chars::alphabetic(s[i]) && s.subrange(i, j)
                    != "result"@;
            assert(0 <= i && is_word(s, i, j));
            assert(names_input_from(s, 0));
        }
        if names_input_from(s, 0) {
            let (i, j) = choose|i: int, j: int|
                0 <= i && #[trigger] is_word(s, i, j) && chars::alphabetic(s[i]) && s.subrange(i, j)
                    != "result"@;
            assert(is_word(s, i, j));
        }
    }
}

/// Whether a contract from the specification has a premise that names an input.
spec fn premised(cs: Seq<ContractView>) -> bool {
    exists|i: int|
        0 <= i < cs.len() && (#[trigger] cs[i]).is_spec_derived && (arrow(cs[i].condition) matches
            Some(p) && names_input(cs[i].condition.take(p)))
}

proof fn lemma_pushed_premise(cs: Seq<ContractView>, c: ContractView)
    requires
        !premised(cs),
        c.is_spec_derived ==> !(arrow(c.condition) matches Some(p) && names_input(
            c.condition.take(p),
        )),
    ensures
        !premised(cs.push(c)),
{
    let now = cs.push(c);
    assert forall|i: int| 0 <= i < now.len() && (#[trigger] now[i]).is_spec_derived implies !(arrow(
        now[i].condition,
    ) matches Some(p) && names_input(now[i].condition.take(p))) by {
        if i < cs.len() {
            assert(now[i] == cs[i]);
        }
    }
}

proof fn lemma_restored_premise(cs: Seq<ContractView>, others: Seq<ContractView>, n: int)
    requires
        !premised(cs),
        forall|i: int| 0 <= i < others.len() ==> !(#[trigger] others[i]).is_spec_derived,
    ensures
        !premised(restored(cs, others, n)),
    decreases n,
{
    if 0 < n <= others.len() {
        lemma_restored_premise(cs, others, n - 1);
        lemma_pushed_premise(restored(cs, others, n - 1), others[n - 1]);
    }
}

proof fn lemma_taken_premise(
    cs: Seq<ContractView>,
    given: Seq<spec_types::ContractView>,
    readings: Seq<ReadingView>,
    parsed: Parsed,
    n: int,
)
    requires
        !premised(cs),
    ensures
        !premised(with_contracts(cs, given, readings, parsed, n).0),
    decreases n,
{
    if 0 < n <= given.len() {
        lemma_taken_premise(cs, given, readings, parsed, n - 1);
        let c = chars::trimmed(given[n - 1].condition);
        law_conditional_premise_names_an_input(c);
        lemma_pushed_premise(
            with_contracts(cs, given, readings, parsed, n - 1).0,
            if taken(with_contracts(cs, given, readings, parsed, n - 1).0, c, readings[n - 1]) {
                derived(
                    code_kind(given[n - 1].contract_type),
                    c,
                    reading_expr(parsed, readings[n - 1]),
                )
            } else {
                ContractView { is_spec_derived: false, ..arbitrary() }
            },
        );
    }
}

/// No contract whose premise names an input is given to a function by its section, where the function
/// had none from the specification before.
pub proof fn law_statements_with_premises_are_not_given(
    f: FunctionToVerify,
    v: Seq<SectionView>,
    parsed: Parsed,
)
    requires
        f.constant_anchor is None,
        f.formula_anchor is None,
        forall|i: int| 0 <= i < f.contracts@.len() ==> !(#[trigger] f.contracts@[i]).is_spec_derived,
    ensures
        enrichment(f, v, parsed) matches Ok((now, _)) ==> forall|i: int|
            0 <= i < now.len() && (#[trigger] now[i]).is_spec_derived ==> !(arrow(
                now[i].condition,
            ) matches Some(p) && names_input(now[i].condition.take(p))),
{
    let cs = attributes::contract_views(f.contracts@);
    let stay = kept(cs, cs.len() as int);
    let own = manual(cs, cs.len() as int);
    lemma_kept_is_written(cs, cs.len() as int);
    assert forall|i: int| 0 <= i < cs.len() implies !(#[trigger] cs[i]).is_spec_derived by {
        assert(cs[i] == f.contracts@[i]@);
    }
    assert(!premised(cs));
    assert(!premised(stay));
    if let Some(section) = f.section {
        let name = match f.spec_name_override {
            Some(n) => n@,
            None => spec_name(f.function_name@),
        };
        if let Some(x) = spec_function(v, section@, name) {
            let rs = readings_of(x.contracts, f.function_sig);
            let n = x.contracts.len() as int;
            lemma_taken_premise(stay, x.contracts, rs, parsed, n);
            lemma_restored_premise(
                with_contracts(stay, x.contracts, rs, parsed, n).0,
                own,
                own.len() as int,
            );
        }
    }
}

/// A premise that names nothing but the result keeps no contract out: one that is not empty, reads as
/// Rust, fits the function and is not there already is taken over.
pub proof fn law_premise_on_the_result_keeps_nothing_out(
    cs: Seq<ContractView>,
    c: Seq<char>,
    r: ReadingView,
)
    requires
        arrow(c) matches Some(p) ==> !names_input(c.take(p)),
    ensures
        taken(cs, c, r) <==> c.len() > 0 && r.valid && r.fits && !has_condition(cs, c),
{
    law_conditional_premise_names_an_input(c);
}

// ---------------------------------------------------------------------------
// What enrichment gives
// ---------------------------------------------------------------------------
/// Of the contracts in the code, enrichment starts from the preconditions and trusted statements,
/// and it may put back the postconditions; contracts that came from a specification before are
/// dropped.
pub proof fn law_code_contracts_are_parted(cs: Seq<ContractView>, n: int)
    requires
        0 <= n <= cs.len(),
    ensures
        kept(cs, n) == cs.take(n).filter(
            |c: ContractView| !c.is_spec_derived && !(c.contract_type is Ensures),
        ),
        manual(cs, n) == cs.take(n).filter(
            |c: ContractView| !c.is_spec_derived && c.contract_type is Ensures,
        ),
    decreases n,
{
    reveal(Seq::filter);
    if n > 0 {
        law_code_contracts_are_parted(cs, n - 1);
        assert(cs.take(n).drop_last() =~= cs.take(n - 1));
        assert(cs.take(n).last() == cs[n - 1]);
    } else {
        assert(cs.take(0) =~= seq![]);
    }
}

/// Whether a contract of the code says what a contract of the specification says: it has its
/// condition and its kind, a precondition being one for the callers and everything else one on the
/// result.
pub open spec fn comes_from(c: ContractView, s: spec_types::ContractView) -> bool {
    &&& c.is_spec_derived
    &&& c.condition == chars::trimmed(s.condition)
    &&& c.contract_type is Requires <==> s.contract_type is Requires
    &&& !(c.contract_type is Axiom)
}

/// Whether a contract comes from one of the first `n` of the specification, which can be read and
/// fits the function.
pub open spec fn given_by(
    c: ContractView,
    given: Seq<spec_types::ContractView>,
    readings: Seq<ReadingView>,
    n: int,
) -> bool {
    exists|j: int|
        0 <= j < n && comes_from(c, #[trigger] given[j]) && readings[j].valid && readings[j].fits
}

/// Whether a contract of the specification can be read, fits the function and has no premise.
pub open spec fn to_be_given(s: spec_types::ContractView, r: ReadingView) -> bool {
    chars::trimmed(s.condition).len() > 0 && r.valid && r.fits && !conditional(chars::trimmed(s.condition))
}

/// Each contract that the specification gives comes from one of its own that can be read and fits the
/// function, and each of its own that can be read, fits the function and has no premise is given or was
/// there already.
pub proof fn law_readable_contracts_are_given(
    cs: Seq<ContractView>,
    given: Seq<spec_types::ContractView>,
    readings: Seq<ReadingView>,
    parsed: Parsed,
    n: int,
)
    requires
        0 <= n <= given.len(),
        readings.len() == given.len(),
    ensures
        cs.is_prefix_of(with_contracts(cs, given, readings, parsed, n).0),
        with_contracts(cs, given, readings, parsed, n).0.len() == cs.len() + with_contracts(
            cs,
            given,
            readings,
            parsed,
            n,
        ).1,
        forall|i: int|
            cs.len() <= i < with_contracts(cs, given, readings, parsed, n).0.len() ==> given_by(
                #[trigger] with_contracts(cs, given, readings, parsed, n).0[i],
                given,
                readings,
                n,
            ),
        forall|j: int|
            0 <= j < n && to_be_given(#[trigger] given[j], readings[j]) ==> has_condition(
                with_contracts(cs, given, readings, parsed, n).0,
                chars::trimmed(given[j].condition),
            ),
    decreases n,
{
    if n > 0 {
        law_readable_contracts_are_given(cs, given, readings, parsed, n - 1);
        let done = with_contracts(cs, given, readings, parsed, n - 1).0;
        let now = with_contracts(cs, given, readings, parsed, n).0;
        let c = chars::trimmed(given[n - 1].condition);
        let last = derived(
            code_kind(given[n - 1].contract_type),
            c,
            reading_expr(parsed, readings[n - 1]),
        );
        assert(now == done || now == done.push(last) && comes_from(last, given[n - 1])
            && readings[n - 1].valid && readings[n - 1].fits);
        assert forall|i: int| 0 <= i < cs.len() implies cs[i] == now[i] by {
            assert(cs[i] == done[i]);
        }
        assert forall|i: int| cs.len() <= i < now.len() implies given_by(
            #[trigger] now[i],
            given,
            readings,
            n,
        ) by {
            if i < done.len() {
                assert(now[i] == done[i]);
                assert(given_by(done[i], given, readings, n - 1));
                let j = choose|j: int|
                    0 <= j < n - 1 && comes_from(done[i], #[trigger] given[j]) && readings[j].valid
                        && readings[j].fits;
                assert(comes_from(now[i], given[j]));
            } else {
                assert(comes_from(now[i], given[n - 1]));
            }
        }
        assert forall|j: int|
            0 <= j < n && to_be_given(#[trigger] given[j], readings[j]) implies has_condition(
            now,
            chars::trimmed(given[j].condition),
        ) by {
            let d = chars::trimmed(given[j].condition);
            if j < n - 1 || has_condition(done, d) {
                let i = choose|i: int| 0 <= i < done.len() && (#[trigger] done[i]).condition == d;
                assert(now[i].condition == d);
            } else {
                assert(now[now.len() - 1].condition == d);
            }
        }
    }
}

/// Postconditions of the code give way to a postcondition of the specification that says more than
/// `true`, and stay where the specification has none or only `true`.
pub proof fn law_postconditions_give_way(
    cs: Seq<ContractView>,
    own: Seq<ContractView>,
    added: bool,
    i: int,
    k: int,
)
    requires
        0 <= i < cs.len(),
        cs[i].is_spec_derived,
        cs[i].contract_type is Ensures,
        0 <= k < own.len(),
    ensures
        chars::trimmed(cs[i].condition) != "true"@ ==> completed(cs, own, true) == cs,
        has_condition(completed(cs, own, false), own[k].condition),
        (forall|j: int|
            0 <= j < cs.len() && (#[trigger] cs[j]).contract_type is Ensures ==> chars::trimmed(
                cs[j].condition,
            ) == "true"@) ==> has_condition(completed(cs, own, true), own[k].condition),
{
    lemma_restored_extends(cs, own, own.len() as int);
}

/// A function that is anchored to a constant of its section promises to return it, and what it
/// promises in the code gives way.
pub proof fn law_constant_function_returns_it(
    cs: Seq<ContractView>,
    c: ConstantView,
    sig: Option<Rc<FnItem>>,
    e: Option<Rc<Expr>>,
)
    ensures
        ({
            let r = reading_of("result == "@ + c.rust_expr, sig);
            let (now, n) = constant_contracts(cs, reading_of(constant_condition(c), sig), e);
            &&& n == 1 <==> r.valid
            &&& n == 1 ==> now.len() > 0 && now.last().condition == condition::extraction(
                "result == "@ + c.rust_expr,
            )->0 && now.last().contract_type is Ensures && now.last().is_spec_derived
            &&& n == 0 || n == 1
            &&& now.len() == kept(cs, cs.len() as int).len() + n
        }),
{
}

proof fn lemma_capitalised_both(a: Seq<Seq<char>>, b: Seq<Seq<char>>, n: int)
    requires
        0 <= n <= b.len(),
    ensures
        all_capitalised(a + b, a.len() + n) == all_capitalised(a, a.len() as int) + all_capitalised(b, n),
    decreases n,
{
    if n > 0 {
        lemma_capitalised_both(a, b, n - 1);
        assert((a + b)[a.len() + n - 1] == b[n - 1]);
        let x = all_capitalised(a, a.len() as int);
        let y = all_capitalised(b, n - 1);
        let z = capitalised(b[n - 1]);
        assert((x + y) + z =~= x + (y + z));
    } else {
        lemma_capitalised_front(a, b, a.len() as int);
        assert(all_capitalised(a, a.len() as int) + Seq::<char>::empty() =~= all_capitalised(
            a,
            a.len() as int,
        ));
    }
}

proof fn lemma_capitalised_front(a: Seq<Seq<char>>, b: Seq<Seq<char>>, n: int)
    requires
        0 <= n <= a.len(),
    ensures
        all_capitalised(a + b, n) == all_capitalised(a, n),
    decreases n,
{
    if n > 0 {
        lemma_capitalised_front(a, b, n - 1);
        assert((a + b)[n - 1] == a[n - 1]);
    }
}

/// The name of a function in the specification is made word by word: what stands before an
/// underscore and what stands behind it, each by itself, and of a single word the word with its
/// first letter in capitals.
pub proof fn law_names_are_made_word_by_word(a: Seq<char>, b: Seq<char>, word: Seq<char>)
    requires
        forall|i: int| 0 <= i < word.len() ==> word[i] != '_',
    ensures
        spec_name(a + "_"@ + b) == spec_name(a) + spec_name(b),
        word.len() > 0 ==> spec_name(word) == chars::unicode_upper(seq![word[0]]) + word.skip(1),
{
    reveal_strlit("_");
    text::lemma_parts_of_both(a, "_"@, b);
    let x = text::parts(a, "_"@);
    let y = text::parts(b, "_"@);
    lemma_capitalised_both(x, y, y.len() as int);
    text::lemma_lacks(word, "_"@, 0);
    text::lemma_find_has(word, "_"@);
    let w = text::parts(word, "_"@);
    assert(w == seq![word]);
    reveal_with_fuel(all_capitalised, 2);
    assert(Seq::<char>::empty() + capitalised(word) =~= capitalised(word));
}

/// The function of the section that has the name of the function in the code is the one that
/// counts, where it has contracts; a function of that name elsewhere counts only where the section
/// has none.
pub proof fn law_own_section_comes_first(v: Seq<SectionView>, section: Seq<char>, name: Seq<char>)
    ensures
        orange_paper::function_found(v, section, Some(name)) matches Some(f) ==> (f.contracts.len() > 0
            ==> spec_function(v, section, name) == Some(f)),
        orange_paper::function_found(v, section, Some(name)) is None ==> (orange_paper::found_anywhere(
            v,
            name,
            0,
        ) matches Some((f, _)) ==> (f.contracts.len() > 0 ==> spec_function(v, section, name) == Some(f))),
{
}

} // verus!
