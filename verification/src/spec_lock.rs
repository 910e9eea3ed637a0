//! What tying a function to the specification adds to it: documentation, and contracts from the
//! specification.
use vstd::prelude::*;
use crate::ast::FnItem;
use crate::chars;
use crate::chars::to_lowercase;
use crate::contract_math;
use crate::contract_math::{is_tuple_function, translate_math_to_rust_contract};
use crate::lock_args::{ArgsView, SpecLockedArgs};
use crate::orange_paper;
use crate::orange_paper::{find_named, SpecParser};
use crate::paths;
use crate::paths::{resolve_orange_paper_paths, split_list, SpecFiles};
use crate::patterns;
use crate::spec_enrich;
use crate::spec_enrich::{names_of_params, rust_to_spec_name};
use crate::spec_types::{
    ContractType,
    ContractView,
    FunctionSpec,
    FunctionView,
    PropertyType,
    PropertyView,
    SectionView,
    SpecSection,
};
use crate::text;
use crate::text::{
    byte_count,
    cat,
    cat3,
    contains,
    decimal_of,
    join,
    replace,
    same,
    split,
    starts_with,
    strip_start,
};

verus! {

// ---------------------------------------------------------------------------
// Where the specification lies
// ---------------------------------------------------------------------------
/// The paths of the specification: the one in the arguments, or else those in the list of the
/// environment, or else those that were found for the code; or why there are none.
pub open spec fn paths_for(
    spec_path: Option<Seq<char>>,
    list: Option<Seq<char>>,
    dir: Seq<char>,
    found: Option<Seq<Seq<char>>>,
) -> Result<Seq<Seq<char>>, Seq<char>> {
    match (spec_path, list, found) {
        (Some(p), _, _) => Ok(seq![p]),
        (None, Some(s), _) => if paths::listed(s).len() > 0 {
            Ok(paths::listed(s))
        } else {
            Err("SPEC_LOCK_SPEC_PATH is set but empty or invalid"@)
        },
        (None, None, Some(v)) => Ok(v),
        (None, None, None) => Err(
            "No Orange Paper spec found. Expected blvm-spec/PROTOCOL.md+ARCHITECTURE.md or blvm-spec/THE_ORANGE_PAPER.md (in-crate blvm-spec/ or ../blvm-spec). CARGO_MANIFEST_DIR="@
                + dir,
        ),
    }
}

/// Paths or why there are none, as mathematical values.
pub open spec fn paths_view(r: Result<Vec<String>, String>) -> Result<Seq<Seq<char>>, Seq<char>> {
    match r {
        Ok(v) => Ok(text::views(v@)),
        Err(e) => Err(e@),
    }
}

/// The paths of the specification for the code in `manifest_dir`, by the arguments, by the list in the
/// environment and by the files that are there.
pub fn locate_spec(
    args: &SpecLockedArgs,
    list: Option<&str>,
    manifest_dir: &str,
    own: SpecFiles,
    beside: SpecFiles,
) -> (r: Result<Vec<String>, String>)
    ensures
        paths_view(r) == paths_for(
            args@.spec_path,
            match list {
                Some(s) => Some(s@),
                None => None,
            },
            manifest_dir@,
            paths::orange_paper_paths(manifest_dir@, own, beside),
        ),
{
    if let Some(p) = &args.spec_path {
        let mut one: Vec<String> = Vec::new();
        one.push(p.as_str().to_owned());
        proof {
            assert(text::views(one@) =~= seq![p@]);
        }
        return Ok(one);
    }
    if let Some(s) = list {
        let v = split_list(s);
        proof {
            assert(text::views(v@).len() == v@.len());
        }
        return if v.len() > 0 {
            Ok(v)
        } else {
            Err("SPEC_LOCK_SPEC_PATH is set but empty or invalid".to_owned())
        };
    }
    match resolve_orange_paper_paths(manifest_dir, own, beside) {
        Some(v) => Ok(v),
        None => Err(
            cat(
                "No Orange Paper spec found. Expected blvm-spec/PROTOCOL.md+ARCHITECTURE.md or blvm-spec/THE_ORANGE_PAPER.md (in-crate blvm-spec/ or ../blvm-spec). CARGO_MANIFEST_DIR=",
                manifest_dir,
            ),
        ),
    }
}

// ---------------------------------------------------------------------------
// Names
// ---------------------------------------------------------------------------
/// The name of the function in the specification: the one in the arguments, or else that of the code
/// with its words in one.
pub open spec fn locked_name(function: Option<Seq<char>>, rust_name: Seq<char>) -> Seq<char> {
    match function {
        Some(n) => n,
        None => spec_enrich::spec_name(rust_name),
    }
}

/// Names with one more, where a step has changed it.
pub open spec fn with_changed(v: Seq<Seq<char>>, before: Seq<char>, after: Seq<char>) -> Seq<
    Seq<char>,
> {
    if after != before {
        v.push(spec_enrich::spec_name(after))
    } else {
        v
    }
}

/// The words of a name in one, with the name of a proposal in capitals.
pub open spec fn in_capitals(name: Seq<char>) -> Seq<char> {
    text::replaced(spec_enrich::spec_name(name), "Bip"@, "BIP"@)
}

/// Other names for a function: its words in one; where it speaks of a proposal, with the name of that
/// in capitals, without and with the usual words at its start; then without those words; and without
/// what follows `with`. So of `check_bip30` they are `CheckBip30`, `BIP30`, `CheckBIP30` and `Bip30`.
pub open spec fn name_variations(name: Seq<char>) -> Seq<Seq<char>> {
    let a = text::without_start(name, "check_"@);
    let b = text::without_start(a, "verify_"@);
    let c = text::without_start(b, "calculate_"@);
    let d = text::without_start(c, "get_"@);
    let v = seq![spec_enrich::spec_name(name)];
    let v = if text::holds(name, "bip"@) {
        v.push(in_capitals(d)).push(in_capitals(name))
    } else {
        v
    };
    let v = with_changed(with_changed(with_changed(with_changed(v, name, a), a, b), b, c), c, d);
    if text::holds(name, "_with_"@) {
        v.push(spec_enrich::spec_name(text::parts(name, "_with_"@)[0]))
    } else {
        v
    }
}

fn write_in_capitals(name: &str) -> (r: String)
    ensures
        r@ == in_capitals(name@),
{
    let pascal = rust_to_spec_name(name);
    replace(pascal.as_str(), "Bip", "BIP")
}

fn push_changed(v: &mut Vec<String>, before: &str, after: &str)
    ensures
        text::views(final(v)@) == with_changed(text::views(old(v)@), before@, after@),
{
    let ghost had = v@;
    if !same(after, before) {
        let s = rust_to_spec_name(after);
        v.push(s);
        proof {
            assert(text::views(v@) =~= text::views(had).push(s@));
        }
    }
}

fn push_name(v: &mut Vec<String>, s: String)
    ensures
        text::views(final(v)@) == text::views(old(v)@).push(s@),
{
    let ghost had = v@;
    v.push(s);
    proof {
        assert(text::views(v@) =~= text::views(had).push(s@));
    }
}

/// Other names for a function.
pub fn generate_name_variations(func_name: &str) -> (r: Vec<String>)
    ensures
        text::views(r@) == name_variations(func_name@),
{
    proof {
        reveal_strlit("_with_");
        text::lemma_parts_nonempty(func_name@, "_with_"@);
    }
    let mut v: Vec<String> = Vec::new();
    v.push(rust_to_spec_name(func_name));
    proof {
        assert(text::views(v@) =~= seq![spec_enrich::spec_name(func_name@)]);
    }
    let a = strip_start(func_name, "check_");
    let b = strip_start(a.as_str(), "verify_");
    let c = strip_start(b.as_str(), "calculate_");
    let d = strip_start(c.as_str(), "get_");
    if contains(func_name, "bip") {
        push_name(&mut v, write_in_capitals(d.as_str()));
        push_name(&mut v, write_in_capitals(func_name));
    }
    push_changed(&mut v, func_name, a.as_str());
    push_changed(&mut v, a.as_str(), b.as_str());
    push_changed(&mut v, b.as_str(), c.as_str());
    push_changed(&mut v, c.as_str(), d.as_str());
    if contains(func_name, "_with_") {
        let parts = split(func_name, "_with_");
        proof {
            assert(text::views(parts@).len() == parts@.len());
            assert(text::views(parts@)[0] == parts@[0]@);
        }
        push_name(&mut v, rust_to_spec_name(parts[0].as_str()));
    }
    v
}

// ---------------------------------------------------------------------------
// The function in the specification
// ---------------------------------------------------------------------------
/// What a function is tied to.
pub enum TargetView {
    /// A function, and the number of its section.
    Function(FunctionView, Seq<char>),
    /// A section without the function, and the number to show for it.
    Section(SectionView, Seq<char>),
    /// Nothing in the specification.
    Nothing,
}

/// What a function is tied to.
#[derive(Debug)]
pub enum Target<'a> {
    Function(&'a FunctionSpec, String),
    Section(&'a SpecSection, String),
    Nothing,
}

impl<'a> View for Target<'a> {
    type V = TargetView;

    open spec fn view(&self) -> TargetView {
        match *self {
            Target::Function(f, id) => TargetView::Function(f@, id@),
            Target::Section(s, id) => TargetView::Section(s@, id@),
            Target::Nothing => TargetView::Nothing,
        }
    }
}

/// A function in a section, or the section alone.
pub open spec fn in_section(s: SectionView, id: Seq<char>, name: Seq<char>) -> TargetView {
    match orange_paper::named_from(s.functions, name, 0) {
        Some(p) => TargetView::Function(s.functions[p], id),
        None => TargetView::Section(s, id),
    }
}

/// The first two parts of a number.
pub open spec fn section_number(id: Seq<char>) -> Seq<char> {
    text::joined(text::parts(id, "."@).take(2), "."@)
}

/// What a function is tied to by the number of a section or, with more than two parts, of a subsection.
pub open spec fn target_in(v: Seq<SectionView>, id: Seq<char>, name: Seq<char>) -> Result<
    TargetView,
    Seq<char>,
> {
    let granular = text::parts(id, "."@).len() > 2;
    let part = if granular {
        orange_paper::subsection_found(v, id)
    } else {
        None
    };
    match (part, orange_paper::section_at(v, id)) {
        (Some(s), _) => Ok(in_section(s, section_number(id), name)),
        (None, Some(s)) => Ok(in_section(s, id, name)),
        (None, None) => Err(
            (if granular {
                "Section or subsection "@
            } else {
                "Section "@
            }) + id + " not found in Orange Paper"@,
        ),
    }
}

/// The first of the names from `i` on that a function in the specification has.
pub open spec fn first_found(v: Seq<SectionView>, names: Seq<Seq<char>>, i: int) -> Option<
    (FunctionView, Seq<char>),
>
    decreases names.len() - i,
{
    if i < 0 || i >= names.len() {
        None
    } else {
        match orange_paper::found_anywhere(v, names[i], 0) {
            Some(f) => Some(f),
            None => first_found(v, names, i + 1),
        }
    }
}

/// The sections of which one must be there for a function that the specification does not have.
pub open spec fn usual_sections() -> Seq<Seq<char>> {
    seq!["1.1"@, "5.1"@, "6.1"@, "2.1"@, "3.1"@, "4.1"@, "7.1"@, "8.1"@]
}

/// Whether one of the numbers is that of a section.
pub open spec fn has_one_of(v: Seq<SectionView>, ids: Seq<Seq<char>>) -> bool {
    exists|i: int|
        0 <= i < ids.len() && orange_paper::section_at(v, #[trigger] ids[i]) is Some
}

/// What a function is tied to by its name alone.
pub open spec fn target_by_name(v: Seq<SectionView>, name: Seq<char>) -> Result<
    TargetView,
    Seq<char>,
> {
    match orange_paper::found_anywhere(v, name, 0) {
        Some(f) => Ok(TargetView::Function(f.0, f.1)),
        None => match first_found(v, name_variations(name), 0) {
            Some(f) => Ok(TargetView::Function(f.0, f.1)),
            None => if has_one_of(v, usual_sections()) {
                Ok(TargetView::Nothing)
            } else {
                Err("Orange Paper must have at least one section"@)
            },
        },
    }
}

/// What a function is tied to, or why it cannot be tied to anything.
pub open spec fn target(v: Seq<SectionView>, section: Option<Seq<char>>, name: Seq<char>) -> Result<
    TargetView,
    Seq<char>,
> {
    match section {
        Some(id) => target_in(v, id, name),
        None => target_by_name(v, name),
    }
}

/// A search by theorems finds no function that a search by names does not find.
pub proof fn law_theorems_find_no_more(v: Seq<SectionView>, name: Seq<char>, i: int)
    requires
        0 <= i,
    ensures
        orange_paper::theorem_found(v, name, i) is Some ==> orange_paper::found_anywhere(
            v,
            name,
            i,
        ) is Some,
    decreases v.len() - i,
{
    if i < v.len() {
        law_theorems_find_no_more(v, name, i + 1);
    }
}

/// A target or why there is none, as a mathematical value.
pub open spec fn target_view(r: Result<Target<'_>, String>) -> Result<TargetView, Seq<char>> {
    match r {
        Ok(t) => Ok(t@),
        Err(e) => Err(e@),
    }
}

fn look_in_section<'a>(s: &'a SpecSection, id: &str, name: &str) -> (r: Target<'a>)
    ensures
        r@ == in_section(s@, id@, name@),
{
    match find_named(&s.functions, name) {
        Some(f) => Target::Function(f, id.to_owned()),
        None => Target::Section(s, id.to_owned()),
    }
}

fn number_of_section(id: &str) -> (r: String)
    requires
        text::parts(id@, "."@).len() >= 2,
    ensures
        r@ == section_number(id@),
{
    proof {
        reveal_strlit(".");
    }
    let mut parts = split(id, ".");
    let ghost all = parts@;
    proof {
        assert(text::views(all).len() == all.len());
    }
    parts.truncate(2);
    proof {
        assert(text::views(parts@) =~= text::views(all).take(2));
    }
    join(parts.as_slice(), ".")
}

fn find_target_in<'a>(parser: &'a SpecParser, id: &str, name: &str) -> (r: Result<
    Target<'a>,
    String,
>)
    ensures
        target_view(r) == target_in(parser.read(), id@, name@),
{
    proof {
        reveal_strlit(".");
    }
    let parts = split(id, ".");
    proof {
        assert(text::views(parts@).len() == parts@.len());
    }
    let granular = parts.len() > 2;
    if granular {
        if let Some((s, _)) = parser.find_subsection(id) {
            let number = number_of_section(id);
            return Ok(look_in_section(s, number.as_str(), name));
        }
    }
    match parser.find_section(id) {
        Some(s) => Ok(look_in_section(s, id, name)),
        None => if granular {
            Err(cat3("Section or subsection ", id, " not found in Orange Paper"))
        } else {
            Err(cat3("Section ", id, " not found in Orange Paper"))
        },
    }
}

#[verifier::loop_isolation(false)]
fn find_first<'a>(parser: &'a SpecParser, names: &Vec<String>) -> (r: Option<Target<'a>>)
    ensures
        match r {
            Some(t) => first_found(parser.read(), text::views(names@), 0) matches Some(f) && t@
                == TargetView::Function(f.0, f.1),
            None => first_found(parser.read(), text::views(names@), 0) is None,
        },
{
    let ghost nv = text::views(names@);
    let mut i: usize = 0;
    proof {
        assert(nv.len() == names@.len());
    }
    while i < names.len()
        invariant
            i <= names@.len(),
            first_found(parser.read(), nv, 0) == first_found(parser.read(), nv, i as int),
        decreases names@.len() - i,
    {
        proof {
            assert(nv[i as int] == names@[i as int]@);
        }
        if let Some((f, id)) = parser.find_function_anywhere(names[i].as_str()) {
            return Some(Target::Function(f, id.to_owned()));
        }
        i += 1;
    }
    None
}

fn has_usual_section(parser: &SpecParser) -> (r: bool)
    ensures
        r == has_one_of(parser.read(), usual_sections()),
{
    let ghost ids = usual_sections();
    proof {
        assert(ids[0] == "1.1"@ && ids[1] == "5.1"@ && ids[2] == "6.1"@ && ids[3] == "2.1"@);
        assert(ids[4] == "3.1"@ && ids[5] == "4.1"@ && ids[6] == "7.1"@ && ids[7] == "8.1"@);
    }
    parser.find_section("1.1").is_some() || parser.find_section("5.1").is_some()
        || parser.find_section("6.1").is_some() || parser.find_section("2.1").is_some()
        || parser.find_section("3.1").is_some() || parser.find_section("4.1").is_some()
        || parser.find_section("7.1").is_some() || parser.find_section("8.1").is_some()
}

/// What a function is tied to, by the number of a section where one is given and by its name.
pub fn find_target<'a>(parser: &'a SpecParser, section: &Option<String>, name: &str) -> (r: Result<
    Target<'a>,
    String,
>)
    ensures
        target_view(r) == target(parser.read(), patterns::group_view(*section), name@),
{
    if let Some(id) = section {
        return find_target_in(parser, id.as_str(), name);
    }
    if let Some((f, id)) = parser.find_function_anywhere(name) {
        return Ok(Target::Function(f, id.to_owned()));
    }
    let names = generate_name_variations(name);
    match find_first(parser, &names) {
        Some(t) => Ok(t),
        None => if has_usual_section(parser) {
            Ok(Target::Nothing)
        } else {
            Err("Orange Paper must have at least one section".to_owned())
        },
    }
}

// ---------------------------------------------------------------------------
// A function that the specification only mentions
// ---------------------------------------------------------------------------
/// The rest of a name in small letters behind a usual word, where it starts with that.
pub open spec fn with_rest(v: Seq<Seq<char>>, low: Seq<char>, word: Seq<char>) -> Seq<Seq<char>> {
    if text::starts(low, word) {
        v.push(low.skip(word.len() as int))
    } else {
        v
    }
}

/// The forms in which a section may mention a function. `low` is the name in small letters.
pub open spec fn mention_forms(name: Seq<char>, low: Seq<char>) -> Seq<Seq<char>> {
    let v = seq![
        low,
        name,
        text::replaced(low, "sigop"@, "sig op"@),
        "\\text{"@ + name + "}"@,
        "\\text{"@ + low + "}"@,
        "text{"@ + name + "}"@,
        "text{"@ + low + "}"@,
    ];
    with_rest(with_rest(with_rest(v, low, "count"@), low, "get"@), low, "calculate"@)
}

/// Whether a text mentions one of the forms. `low` is the text in small letters.
pub open spec fn mentions_given(s: Seq<char>, low: Seq<char>, forms: Seq<Seq<char>>) -> bool {
    exists|i: int|
        0 <= i < forms.len() && (text::holds(low, #[trigger] forms[i]) || text::holds(s, forms[i]))
}

/// Whether a text mentions one of the forms, whatever the case of its letters.
pub open spec fn mentions(s: Seq<char>, forms: Seq<Seq<char>>) -> bool {
    mentions_given(s, chars::unicode_lower(s), forms)
}

/// Whether a section mentions one of the forms: in its text, in a theorem or in a formula.
pub open spec fn section_mentions(s: SectionView, forms: Seq<Seq<char>>) -> bool {
    mentions(s.content, forms) || (exists|i: int|
        0 <= i < s.theorems.len() && mentions((#[trigger] s.theorems[i]).statement, forms)) || (
    exists|i: int|
        0 <= i < s.functions.len() && ((#[trigger] s.functions[i]).formula matches Some(f)
            && mentions(f, forms)))
}

fn push_rest(v: &mut Vec<String>, low: &str, word: &str)
    ensures
        text::views(final(v)@) == with_rest(text::views(old(v)@), low@, word@),
{
    if starts_with(low, word) {
        push_name(v, strip_start(low, word));
    }
}

/// The forms in which a section may mention a function.
pub fn forms_of_mention(name: &str, low: &str) -> (r: Vec<String>)
    ensures
        text::views(r@) == mention_forms(name@, low@),
{
    let mut v: Vec<String> = Vec::new();
    v.push(low.to_owned());
    v.push(name.to_owned());
    v.push(replace(low, "sigop", "sig op"));
    v.push(cat3("\\text{", name, "}"));
    v.push(cat3("\\text{", low, "}"));
    v.push(cat3("text{", name, "}"));
    v.push(cat3("text{", low, "}"));
    proof {
        assert(text::views(v@) =~= seq![
            low@,
            name@,
            text::replaced(low@, "sigop"@, "sig op"@),
            "\\text{"@ + name@ + "}"@,
            "\\text{"@ + low@ + "}"@,
            "text{"@ + name@ + "}"@,
            "text{"@ + low@ + "}"@,
        ]);
    }
    push_rest(&mut v, low, "count");
    push_rest(&mut v, low, "get");
    push_rest(&mut v, low, "calculate");
    v
}

/// Whether a text mentions one of the forms. `low` is the text in small letters.
#[verifier::loop_isolation(false)]
pub fn is_mentioned(s: &str, low: &str, forms: &Vec<String>) -> (r: bool)
    ensures
        r == mentions_given(s@, low@, text::views(forms@)),
{
    let ghost fv = text::views(forms@);
    let mut i: usize = 0;
    proof {
        assert(fv.len() == forms@.len());
    }
    while i < forms.len()
        invariant
            i <= forms@.len(),
            forall|k: int|
                0 <= k < i ==> !text::holds(low@, #[trigger] fv[k]) && !text::holds(s@, fv[k]),
        decreases forms@.len() - i,
    {
        proof {
            assert(fv[i as int] == forms@[i as int]@);
        }
        if contains(low, forms[i].as_str()) || contains(s, forms[i].as_str()) {
            return true;
        }
        i += 1;
    }
    false
}

fn text_mentions(s: &str, forms: &Vec<String>) -> (r: bool)
    ensures
        r == mentions(s@, text::views(forms@)),
{
    let low = to_lowercase(s);
    is_mentioned(s, low.as_str(), forms)
}

/// Whether a section mentions one of the forms.
#[verifier::loop_isolation(false)]
pub fn does_section_mention(s: &SpecSection, forms: &Vec<String>) -> (r: bool)
    ensures
        r == section_mentions(s@, text::views(forms@)),
{
    let ghost sv = s@;
    let ghost fv = text::views(forms@);
    if text_mentions(s.content.as_str(), forms) {
        return true;
    }
    let mut i: usize = 0;
    proof {
        assert(sv.theorems.len() == s.theorems@.len());
        assert(sv.functions.len() == s.functions@.len());
    }
    while i < s.theorems.len()
        invariant
            i <= s.theorems@.len(),
            forall|k: int| 0 <= k < i ==> !mentions((#[trigger] sv.theorems[k]).statement, fv),
        decreases s.theorems@.len() - i,
    {
        proof {
            assert(sv.theorems[i as int] == s.theorems@[i as int]@);
        }
        if text_mentions(s.theorems[i].statement.as_str(), forms) {
            return true;
        }
        i += 1;
    }
    let mut j: usize = 0;
    while j < s.functions.len()
        invariant
            j <= s.functions@.len(),
            forall|k: int|
                0 <= k < j ==> !((#[trigger] sv.functions[k]).formula matches Some(f) && mentions(
                    f,
                    fv,
                )),
        decreases s.functions@.len() - j,
    {
        proof {
            assert(sv.functions[j as int] == s.functions@[j as int]@);
        }
        if let Some(f) = &s.functions[j].formula {
            if text_mentions(f.as_str(), forms) {
                return true;
            }
        }
        j += 1;
    }
    false
}

/// The names of functions.
pub open spec fn function_names(fs: Seq<FunctionView>) -> Seq<Seq<char>> {
    fs.map_values(|f: FunctionView| f.name)
}

/// The functions that a section has, in words.
pub open spec fn available(s: SectionView) -> Seq<char> {
    if s.functions.len() == 0 {
        "(none found - section content length: "@ + text::decimal(text::byte_len(s.content)) + ")"@
    } else {
        text::joined(function_names(s.functions), ", "@)
    }
}

/// What is said of a function that its section does not have.
pub open spec fn absent_words(name: Seq<char>, s: SectionView, id: Seq<char>, mentioned: bool) -> Seq<
    char,
> {
    if mentioned {
        "Referenced in section "@ + id + " (theorem/formula)"@
    } else {
        "Function '"@ + name + "' referenced but not yet in spec section "@ + id
            + " (Migration mode). Available: "@ + available(s)
    }
}

/// What is said of a function that the specification does not have.
pub open spec fn unknown_words(name: Seq<char>) -> Seq<char> {
    "Function '"@ + name + "' auto-inferred (not yet in Orange Paper - migration mode)"@
}

/// The functions that a section has, in words.
pub fn words_for_available(s: &SpecSection) -> (r: String)
    ensures
        r@ == available(s@),
{
    proof {
        assert(s@.functions.len() == s.functions@.len());
    }
    if s.functions.len() == 0 {
        let n = decimal_of(byte_count(s.content.as_str()));
        return cat3("(none found - section content length: ", n.as_str(), ")");
    }
    let mut names: Vec<String> = Vec::new();
    let mut i: usize = 0;
    while i < s.functions.len()
        invariant
            i <= s.functions@.len(),
            names@.len() == i,
            forall|k: int| 0 <= k < i ==> (#[trigger] names@[k])@ == s.functions@[k].name@,
        decreases s.functions@.len() - i,
    {
        names.push(s.functions[i].name.as_str().to_owned());
        i += 1;
    }
    proof {
        assert(text::views(names@) =~= function_names(s@.functions));
    }
    join(names.as_slice(), ", ")
}

/// What is said of a function that its section does not have.
pub fn words_for_absent(name: &str, s: &SpecSection, id: &str, mentioned: bool) -> (r: String)
    ensures
        r@ == absent_words(name@, s@, id@, mentioned),
{
    if mentioned {
        cat3("Referenced in section ", id, " (theorem/formula)")
    } else {
        let mut r = "Function '".to_owned();
        r.append(name);
        r.append("' referenced but not yet in spec section ");
        r.append(id);
        r.append(" (Migration mode). Available: ");
        r.append(words_for_available(s).as_str());
        r
    }
}

// ---------------------------------------------------------------------------
// Contracts
// ---------------------------------------------------------------------------
/// A postcondition from the specification, and a remark on it.
#[derive(Debug)]
pub struct EnsuresClause {
    pub expression: String,
    pub comment: String,
}

/// A postcondition from the specification as a mathematical value.
#[verifier::ext_equal]
pub struct ClauseView {
    pub expression: Seq<char>,
    pub comment: Seq<char>,
}

impl View for EnsuresClause {
    type V = ClauseView;

    open spec fn view(&self) -> ClauseView {
        ClauseView { expression: self.expression@, comment: self.comment@ }
    }
}

/// Postconditions as mathematical values.
pub open spec fn clause_views(v: Seq<EnsuresClause>) -> Seq<ClauseView> {
    v.map_values(|c: EnsuresClause| c@)
}

/// The preconditions of a function with the given signature in the specification: a natural number is
/// not negative.
pub open spec fn preconditions(signature: Option<Seq<char>>, params: Seq<Seq<char>>) -> Seq<Seq<char>> {
    match signature {
        Some(sig) => match orange_paper::signature_parts(sig) {
            Some(p) if p.0 == "Natural"@ && params.len() > 0 => seq![params[0] + " >= 0"@],
            _ => seq![],
        },
        None => seq![],
    }
}

/// The preconditions of a function with the given signature in the specification.
pub fn generate_requires(spec: &FunctionSpec, params: &Vec<String>) -> (r: Vec<String>)
    ensures
        text::views(r@) == preconditions(spec@.signature, text::views(params@)),
{
    let mut out: Vec<String> = Vec::new();
    proof {
        assert(text::views(out@) =~= seq![]);
        assert(text::views(params@).len() == params@.len());
    }
    if let Some(sig) = &spec.signature {
        if let Some((inputs, _)) = SpecParser::parse_signature(sig.as_str()) {
            proof {
                assert(text::views(inputs@).len() == inputs@.len());
                assert(text::views(inputs@)[0] == inputs@[0]@);
            }
            if same(inputs[0].as_str(), "Natural") && params.len() > 0 {
                proof {
                    assert(text::views(params@)[0] == params@[0]@);
                }
                push_name(&mut out, cat(params[0].as_str(), " >= 0"));
                proof {
                    assert(text::views(out@) =~= seq![params@[0]@ + " >= 0"@]);
                }
            }
        }
    }
    out
}

/// A clause of a statement.
pub open spec fn clause(
    statement: Seq<char>,
    name: Seq<char>,
    params: Seq<Seq<char>>,
    tuple: bool,
    comment: Seq<char>,
) -> ClauseView {
    ClauseView {
        expression: contract_math::math_translated(statement, name, params, tuple),
        comment,
    }
}

/// The postconditions of the first `n` contracts of a function.
pub open spec fn from_contracts(f: FunctionView, params: Seq<Seq<char>>, n: int) -> Seq<ClauseView>
    decreases n,
{
    if n <= 0 || n > f.contracts.len() {
        seq![]
    } else {
        let done = from_contracts(f, params, n - 1);
        let c = f.contracts[n - 1];
        if c.contract_type == ContractType::Requires {
            done
        } else {
            done.push(
                clause(
                    c.condition,
                    f.name,
                    params,
                    false,
                    match c.comment {
                        Some(x) => " // "@ + x,
                        None => ""@,
                    },
                ),
            )
        }
    }
}

/// The postconditions of the first `n` properties of a function.
pub open spec fn from_properties(f: FunctionView, params: Seq<Seq<char>>, n: int) -> Seq<ClauseView>
    decreases n,
{
    if n <= 0 || n > f.properties.len() {
        seq![]
    } else {
        let done = from_properties(f, params, n - 1);
        let p = f.properties[n - 1];
        if p.property_type == PropertyType::Requires {
            done
        } else {
            done.push(clause(p.statement, f.name, params, false, " // "@ + p.name))
        }
    }
}

/// The postconditions of the first `n` theorems on a function.
pub open spec fn from_theorems(f: FunctionView, params: Seq<Seq<char>>, tuple: bool, n: int) -> Seq<
    ClauseView,
>
    decreases n,
{
    if n <= 0 || n > f.theorems.len() {
        seq![]
    } else {
        let t = f.theorems[n - 1];
        from_theorems(f, params, tuple, n - 1).push(
            clause(
                t.statement,
                f.name,
                params,
                tuple,
                " // Theorem "@ + t.number + ": "@ + t.name,
            ),
        )
    }
}

/// The postconditions of a function: from its contracts, or without such from its properties, or
/// without such from its theorems and its formula. A function that returns a tuple has only the last.
pub open spec fn postconditions(f: FunctionView, params: Seq<Seq<char>>, tuple: bool) -> Seq<ClauseView> {
    let a = from_contracts(f, params, f.contracts.len() as int);
    let b = from_properties(f, params, f.properties.len() as int);
    let c = from_theorems(f, params, tuple, f.theorems.len() as int);
    if !tuple && a.len() > 0 {
        a
    } else if !tuple && b.len() > 0 {
        b
    } else {
        match f.formula {
            Some(x) => c.push(clause(x, f.name, params, tuple, ""@)),
            None => c,
        }
    }
}

fn make_clause(statement: &str, name: &str, params: &Vec<String>, tuple: bool, comment: String) -> (r:
    EnsuresClause)
    ensures
        r@ == clause(statement@, name@, text::views(params@), tuple, comment@),
{
    EnsuresClause {
        expression: translate_math_to_rust_contract(statement, name, params, tuple),
        comment,
    }
}

#[verifier::loop_isolation(false)]
fn clauses_of_contracts(f: &FunctionSpec, params: &Vec<String>) -> (r: Vec<EnsuresClause>)
    ensures
        clause_views(r@) == from_contracts(f@, text::views(params@), f.contracts@.len() as int),
{
    let ghost fv = f@;
    let ghost pv = text::views(params@);
    let mut out: Vec<EnsuresClause> = Vec::new();
    let mut i: usize = 0;
    proof {
        assert(clause_views(out@) =~= seq![]);
        assert(fv.contracts.len() == f.contracts@.len());
    }
    while i < f.contracts.len()
        invariant
            i <= f.contracts@.len(),
            clause_views(out@) == from_contracts(fv, pv, i as int),
        decreases f.contracts@.len() - i,
    {
        let ghost had = out@;
        proof {
            assert(fv.contracts[i as int] == f.contracts@[i as int]@);
        }
        let c = &f.contracts[i];
        if c.contract_type != ContractType::Requires {
            let comment = match &c.comment {
                Some(x) => cat(" // ", x.as_str()),
                None => "".to_owned(),
            };
            let row = make_clause(c.condition.as_str(), f.name.as_str(), params, false, comment);
            out.push(row);
            proof {
                assert(clause_views(out@) =~= clause_views(had).push(row@));
            }
        }
        i += 1;
    }
    out
}

#[verifier::loop_isolation(false)]
fn clauses_of_properties(f: &FunctionSpec, params: &Vec<String>) -> (r: Vec<EnsuresClause>)
    ensures
        clause_views(r@) == from_properties(f@, text::views(params@), f.properties@.len() as int),
{
    let ghost fv = f@;
    let ghost pv = text::views(params@);
    let mut out: Vec<EnsuresClause> = Vec::new();
    let mut i: usize = 0;
    proof {
        assert(clause_views(out@) =~= seq![]);
        assert(fv.properties.len() == f.properties@.len());
    }
    while i < f.properties.len()
        invariant
            i <= f.properties@.len(),
            clause_views(out@) == from_properties(fv, pv, i as int),
        decreases f.properties@.len() - i,
    {
        let ghost had = out@;
        proof {
            assert(fv.properties[i as int] == f.properties@[i as int]@);
        }
        let p = &f.properties[i];
        if p.property_type != PropertyType::Requires {
            let comment = cat(" // ", p.name.as_str());
            let row = make_clause(p.statement.as_str(), f.name.as_str(), params, false, comment);
            out.push(row);
            proof {
                assert(clause_views(out@) =~= clause_views(had).push(row@));
            }
        }
        i += 1;
    }
    out
}

#[verifier::loop_isolation(false)]
fn clauses_of_theorems(f: &FunctionSpec, params: &Vec<String>, tuple: bool) -> (r: Vec<EnsuresClause>)
    ensures
        clause_views(r@) == from_theorems(
            f@,
            text::views(params@),
            tuple,
            f.theorems@.len() as int,
        ),
{
    let ghost fv = f@;
    let ghost pv = text::views(params@);
    let mut out: Vec<EnsuresClause> = Vec::new();
    let mut i: usize = 0;
    proof {
        assert(clause_views(out@) =~= seq![]);
        assert(fv.theorems.len() == f.theorems@.len());
    }
    while i < f.theorems.len()
        invariant
            i <= f.theorems@.len(),
            clause_views(out@) == from_theorems(fv, pv, tuple, i as int),
        decreases f.theorems@.len() - i,
    {
        let ghost had = out@;
        proof {
            assert(fv.theorems[i as int] == f.theorems@[i as int]@);
        }
        let t = &f.theorems[i];
        let mut comment = " // Theorem ".to_owned();
        comment.append(t.number.as_str());
        comment.append(": ");
        comment.append(t.name.as_str());
        let row = make_clause(t.statement.as_str(), f.name.as_str(), params, tuple, comment);
        out.push(row);
        proof {
            assert(clause_views(out@) =~= clause_views(had).push(row@));
        }
        i += 1;
    }
    out
}

/// The postconditions of a function.
pub fn generate_ensures(spec: &FunctionSpec, params: &Vec<String>, tuple: bool) -> (r: Vec<
    EnsuresClause,
>)
    ensures
        clause_views(r@) == postconditions(spec@, text::views(params@), tuple),
{
    proof {
        assert(spec@.contracts.len() == spec.contracts@.len());
        assert(spec@.properties.len() == spec.properties@.len());
        assert(spec@.theorems.len() == spec.theorems@.len());
    }
    if !tuple {
        let a = clauses_of_contracts(spec, params);
        proof {
            assert(clause_views(a@).len() == a@.len());
        }
        if a.len() > 0 {
            return a;
        }
        let b = clauses_of_properties(spec, params);
        proof {
            assert(clause_views(b@).len() == b@.len());
        }
        if b.len() > 0 {
            return b;
        }
    }
    let mut c = clauses_of_theorems(spec, params, tuple);
    let ghost had = c@;
    if let Some(x) = &spec.formula {
        let row = make_clause(x.as_str(), spec.name.as_str(), params, tuple, "".to_owned());
        c.push(row);
        proof {
            assert(clause_views(c@) =~= clause_views(had).push(row@));
        }
    }
    c
}

// ---------------------------------------------------------------------------
// The attribute
// ---------------------------------------------------------------------------
/// What the attribute adds to a function.
#[derive(Debug)]
pub struct Expansion {
    pub doc: String,
    pub preconditions: Vec<String>,
    pub postconditions: Vec<EnsuresClause>,
}

/// What the attribute adds to a function, as a mathematical value.
#[verifier::ext_equal]
pub struct ExpansionView {
    pub doc: Seq<char>,
    pub preconditions: Seq<Seq<char>>,
    pub postconditions: Seq<ClauseView>,
}

impl View for Expansion {
    type V = ExpansionView;

    open spec fn view(&self) -> ExpansionView {
        ExpansionView {
            doc: self.doc@,
            preconditions: text::views(self.preconditions@),
            postconditions: clause_views(self.postconditions@),
        }
    }
}

/// The documentation of a function that is tied to a section.
pub open spec fn doc_words(section: Seq<char>, name: Seq<char>, description: Seq<char>) -> Seq<char> {
    "Spec-locked to Orange Paper Section "@ + section + ": "@ + name + "\n\n"@ + description
}

/// The documentation of a function that is tied to a section.
pub fn words_for_doc(section: &str, name: &str, description: &str) -> (r: String)
    ensures
        r@ == doc_words(section@, name@, description@),
{
    let mut r = "Spec-locked to Orange Paper Section ".to_owned();
    r.append(section);
    r.append(": ");
    r.append(name);
    r.append("\n\n");
    r.append(description);
    r
}

/// A text that may be missing, or nothing.
pub open spec fn or_empty(s: Option<Seq<char>>) -> Seq<char> {
    match s {
        Some(x) => x,
        None => ""@,
    }
}

/// What the attribute adds to a function that is tied to `t`.
pub open spec fn expansion_of(
    t: TargetView,
    section: Option<Seq<char>>,
    name: Seq<char>,
    params: Seq<Seq<char>>,
    tuple: bool,
) -> ExpansionView {
    let shown = |id: Seq<char>|
        match section {
            Some(s) => s,
            None => id,
        };
    let bare = |id: Seq<char>, words: Seq<char>|
        ExpansionView {
            doc: doc_words(shown(id), name, words),
            preconditions: seq![],
            postconditions: seq![],
        };
    match t {
        TargetView::Function(f, id) => ExpansionView {
            doc: doc_words(shown(id), f.name, or_empty(f.description)),
            preconditions: preconditions(f.signature, params),
            postconditions: postconditions(f, params, tuple),
        },
        TargetView::Section(s, id) => bare(
            id,
            absent_words(
                name,
                s,
                id,
                section_mentions(s, mention_forms(name, chars::unicode_lower(name))),
            ),
        ),
        TargetView::Nothing => bare("auto-inferred"@, unknown_words(name)),
    }
}

/// What the attribute adds to a function, or why it cannot.
pub open spec fn expansion(v: Seq<SectionView>, args: ArgsView, f: FnItem) -> Result<
    ExpansionView,
    Seq<char>,
> {
    let name = locked_name(args.function, f.name@);
    match target(v, args.section, name) {
        Ok(t) => Ok(
            expansion_of(
                t,
                args.section,
                name,
                spec_enrich::param_names(f),
                contract_math::returns_tuple(f),
            ),
        ),
        Err(e) => Err(e),
    }
}

/// What the attribute adds, or why it cannot, as a mathematical value.
pub open spec fn expansion_view(r: Result<Expansion, String>) -> Result<ExpansionView, Seq<char>> {
    match r {
        Ok(e) => Ok(e@),
        Err(e) => Err(e@),
    }
}

fn bare_expansion(section: &Option<String>, id: &str, name: &str, words: &str) -> (r: Expansion)
    ensures
        r@ == (ExpansionView {
            doc: doc_words(
                match patterns::group_view(*section) {
                    Some(s) => s,
                    None => id@,
                },
                name@,
                words@,
            ),
            preconditions: seq![],
            postconditions: seq![],
        }),
{
    let shown = match section {
        Some(s) => s.as_str(),
        None => id,
    };
    let r = Expansion {
        doc: words_for_doc(shown, name, words),
        preconditions: Vec::new(),
        postconditions: Vec::new(),
    };
    proof {
        assert(text::views(r.preconditions@) =~= seq![]);
        assert(clause_views(r.postconditions@) =~= seq![]);
    }
    r
}

/// What the attribute adds to a function that is tied to `t`.
pub fn expand(
    t: &Target<'_>,
    section: &Option<String>,
    name: &str,
    params: &Vec<String>,
    tuple: bool,
) -> (r: Expansion)
    ensures
        r@ == expansion_of(t@, patterns::group_view(*section), name@, text::views(params@), tuple),
{
    match t {
        Target::Function(f, id) => {
            let shown = match section {
                Some(s) => s.as_str(),
                None => id.as_str(),
            };
            let description = match &f.description {
                Some(d) => d.as_str(),
                None => "",
            };
            Expansion {
                doc: words_for_doc(shown, f.name.as_str(), description),
                preconditions: generate_requires(f, params),
                postconditions: generate_ensures(f, params, tuple),
            }
        },
        Target::Section(s, id) => {
            let low = to_lowercase(name);
            let forms = forms_of_mention(name, low.as_str());
            let mentioned = does_section_mention(s, &forms);
            let words = words_for_absent(name, s, id.as_str(), mentioned);
            bare_expansion(section, id.as_str(), name, words.as_str())
        },
        Target::Nothing => {
            let words = cat3(
                "Function '",
                name,
                "' auto-inferred (not yet in Orange Paper - migration mode)",
            );
            bare_expansion(section, "auto-inferred", name, words.as_str())
        },
    }
}

/// What the attribute with the given arguments adds to a function, or why it cannot: documentation that
/// names the section, and contracts from the specification.
pub fn process_spec_locked(args: &SpecLockedArgs, func: &FnItem, parser: &SpecParser) -> (r: Result<
    Expansion,
    String,
>)
    ensures
        expansion_view(r) == expansion(parser.read(), args@, *func),
{
    let name = match &args.function {
        Some(n) => n.as_str().to_owned(),
        None => rust_to_spec_name(func.name.as_str()),
    };
    let t = match find_target(parser, &args.section, name.as_str()) {
        Ok(t) => t,
        Err(e) => {
            return Err(e);
        },
    };
    let params = names_of_params(func);
    let tuple = is_tuple_function(func);
    Ok(expand(&t, &args.section, name.as_str(), &params, tuple))
}

/// A function that is tied to a section with a number it does not have is refused, and the number is
/// named.
pub proof fn law_unknown_section_is_refused(v: Seq<SectionView>, id: Seq<char>, name: Seq<char>)
    requires
        orange_paper::section_at(v, id) is None,
        orange_paper::subsection_found(v, id) is None,
    ensures
        target(v, Some(id), name) is Err,
{
}

/// A function that the specification has in the section that is asked for keeps its contracts and its
/// name from there.
pub proof fn law_function_of_section_is_taken(v: Seq<SectionView>, id: Seq<char>, name: Seq<char>, p: int)
    requires
        text::parts(id, "."@).len() <= 2,
        orange_paper::section_at(v, id) is Some,
        orange_paper::named_from(orange_paper::section_at(v, id)->0.functions, name, 0) == Some(p),
    ensures
        target(v, Some(id), name) == Ok::<TargetView, Seq<char>>(
            TargetView::Function(orange_paper::section_at(v, id)->0.functions[p], id),
        ),
{
}

/// Each contract and each property that is no precondition gives one postcondition, and a
/// precondition gives none.
pub proof fn law_preconditions_are_no_postconditions(f: FunctionView, params: Seq<Seq<char>>, n: int, k: int)
    requires
        0 <= n <= f.contracts.len(),
        0 <= k <= f.properties.len(),
    ensures
        from_contracts(f, params, n).len() == f.contracts.take(n).filter(
            |c: ContractView| !(c.contract_type is Requires),
        ).len(),
        from_properties(f, params, k).len() == f.properties.take(k).filter(
            |p: PropertyView| !(p.property_type is Requires),
        ).len(),
    decreases n, k,
{
    reveal(Seq::filter);
    if n > 0 {
        law_preconditions_are_no_postconditions(f, params, n - 1, k);
        assert(f.contracts.take(n).drop_last() =~= f.contracts.take(n - 1));
        assert(f.contracts.take(n).last() == f.contracts[n - 1]);
    } else if k > 0 {
        law_preconditions_are_no_postconditions(f, params, n, k - 1);
        assert(f.properties.take(k).drop_last() =~= f.properties.take(k - 1));
        assert(f.properties.take(k).last() == f.properties[k - 1]);
        assert(f.contracts.take(0) =~= seq![]);
    } else {
        assert(f.contracts.take(0) =~= seq![]);
        assert(f.properties.take(0) =~= seq![]);
    }
}

/// A function that states postconditions in contracts has those alone; properties count only where
/// no contract does, and theorems and the formula only where no property does. For a tuple only
/// these count.
pub proof fn law_contracts_come_first(f: FunctionView, params: Seq<Seq<char>>, i: int)
    ensures
        0 <= i < f.contracts.len() && !(f.contracts[i].contract_type is Requires) ==> postconditions(
            f,
            params,
            false,
        ) == from_contracts(f, params, f.contracts.len() as int),
        f.contracts.len() == 0 && 0 <= i < f.properties.len() && !(f.properties[i].property_type is Requires)
            ==> postconditions(f, params, false) == from_properties(f, params, f.properties.len() as int),
        f.contracts.len() == 0 && f.properties.len() == 0 ==> postconditions(f, params, false).len()
            == f.theorems.len() + if f.formula is Some {
            1int
        } else {
            0int
        },
        postconditions(f, params, true).len() == f.theorems.len() + if f.formula is Some {
            1int
        } else {
            0int
        },
{
    if 0 <= i < f.contracts.len() {
        lemma_some_contract(f, params, f.contracts.len() as int, i);
    }
    if 0 <= i < f.properties.len() {
        lemma_some_property(f, params, f.properties.len() as int, i);
    }
    lemma_every_theorem(f, params, false, f.theorems.len() as int);
    lemma_every_theorem(f, params, true, f.theorems.len() as int);
}

proof fn lemma_some_contract(f: FunctionView, params: Seq<Seq<char>>, n: int, i: int)
    requires
        0 <= i < n <= f.contracts.len(),
    ensures
        !(f.contracts[i].contract_type is Requires) ==> from_contracts(f, params, n).len() > 0,
    decreases n,
{
    if i < n - 1 {
        lemma_some_contract(f, params, n - 1, i);
    }
}

proof fn lemma_some_property(f: FunctionView, params: Seq<Seq<char>>, n: int, i: int)
    requires
        0 <= i < n <= f.properties.len(),
    ensures
        !(f.properties[i].property_type is Requires) ==> from_properties(f, params, n).len() > 0,
    decreases n,
{
    if i < n - 1 {
        lemma_some_property(f, params, n - 1, i);
    }
}

proof fn lemma_every_theorem(f: FunctionView, params: Seq<Seq<char>>, tuple: bool, n: int)
    requires
        0 <= n <= f.theorems.len(),
    ensures
        from_theorems(f, params, tuple, n).len() == n,
    decreases n,
{
    if n > 0 {
        lemma_every_theorem(f, params, tuple, n - 1);
    }
}

/// The section of a subsection is named by the first two parts of its number.
pub proof fn law_section_has_two_parts(a: Seq<char>, b: Seq<char>, rest: Seq<char>)
    requires
        forall|i: int| 0 <= i < a.len() ==> a[i] != '.',
        forall|i: int| 0 <= i < b.len() ==> b[i] != '.',
    ensures
        section_number(a + "."@ + (b + "."@ + rest)) == a + "."@ + b,
        section_number(a + "."@ + b) == a + "."@ + b,
{
    reveal_strlit(".");
    text::lemma_lacks(a, "."@, 0);
    text::lemma_find_has(a, "."@);
    text::lemma_lacks(b, "."@, 0);
    text::lemma_find_has(b, "."@);
    assert(text::parts(a, "."@) == seq![a] && text::parts(b, "."@) == seq![b]);
    text::lemma_parts_of_both(a, "."@, b + "."@ + rest);
    text::lemma_parts_of_both(b, "."@, rest);
    text::lemma_parts_of_both(a, "."@, b);
    text::lemma_parts_nonempty(rest, "."@);
    let two = seq![a, b];
    assert(text::parts(a + "."@ + (b + "."@ + rest), "."@).take(2) =~= two);
    assert(text::parts(a + "."@ + b, "."@).take(2) =~= two);
    text::lemma_joined_parts(a + "."@ + b, "."@);
    assert(text::parts(a + "."@ + b, "."@) =~= two);
}

} // verus!
