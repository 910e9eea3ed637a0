//! What a section of a specification holds: functions with their properties and theorems, constants,
//! properties that stand by themselves, and formulas with names.
use vstd::prelude::*;
use crate::chars;
use crate::chars::{to_lowercase, to_uppercase, trim};
use crate::patterns;
use crate::patterns::{capture_group, captures_iter, Found};
use crate::spec_text;
use crate::spec_text::{
    extract_formula,
    find_next_function_boundary,
    parse_constant_value,
    translate_property_to_rust,
};
use crate::spec_types;
use crate::spec_types::{
    ConstantView,
    Contract,
    ContractType,
    ContractView,
    ExtractedConstant,
    FormulaSpec,
    FormulaView,
    FunctionSpec,
    FunctionView,
    Property,
    PropertyType,
    PropertyView,
    StandaloneProperty,
    StandalonePropertyType,
    StandaloneView,
    Theorem,
    TheoremView,
};
use crate::text;
use crate::text::{
    before_str,
    cat,
    cat3,
    contains,
    find_str,
    from_range,
    lines_of,
    replace,
    same,
    split,
    to_chars,
};

verus! {

/// A match as a mathematical value: its groups, the text from its start on, the text behind it.
pub type Hit = (Seq<Option<Seq<char>>>, Seq<char>, Seq<char>);

/// `- Name: statement` or `- **Name**: statement`.
pub const PROPERTY_LINE: &'static str = r"(?m)^\s*-\s*(?:\*\*)?([^:*]+)(?:\*\*)?:\s*(.+)$";

/// `**Theorem 6.1.1** (Name)`.
pub const THEOREM_HEAD: &'static str = r"\*\*Theorem\s+([\d.]+)\*\*[^(]*\(([^)]+)\)";

/// A formula between two pairs of dollar signs.
pub const FORMULA_BLOCK: &'static str = r"\$\$([^$]+)\$\$";

/// A formula between two dollar signs.
pub const INLINE_FORMULA: &'static str = r"\$([^$]+)\$";

/// `$NAME = value$ (description)`.
pub const CONSTANT_LINE: &'static str =
    r"\$([A-Za-z_]+(?:\{[^}]+\})?)\s*=\s*([^$]+)\$\s*(?:\(([^)]+)\))?";

/// `**Property** (Name):`.
pub const PROPERTY_HEAD: &'static str = r"\*\*Property\*\*\s*\(([^)]+)\):";

/// `\text{Name}`.
pub const TEXT_COMMAND: &'static str = r"\\text\{([^}]+)\}";

/// `1. **Name**: $statement$`.
pub const INVARIANT_LINE: &'static str = r"(?m)^\d+\.\s*\*\*([^*]+)\*\*:\s*\$([^$]+)\$";

/// `**Name**: signature`.
pub const FUNCTION_HEAD: &'static str = r"\*\*(\w+)\*\*:\s*\$?([^\$]+)\$?";

/// `**Formula** (**F_Name**):`.
pub const NAMED_FORMULA: &'static str = r"\*\*Formula\*\*\s*\(\*\*(F_[A-Za-z0-9_]+)\*\*\)\s*:";

/// `**Depends on**: F_A, F_B`.
pub const DEPENDS_LINE: &'static str = r"\*\*Depends on\*\*\s*:?\s*(.+)";

/// The name of a formula or a constant.
pub const STABLE_ID: &'static str = r"\b[FC]_[A-Za-z0-9_]+";

// ---------------------------------------------------------------------------
// Properties
// ---------------------------------------------------------------------------
/// The kind of a property: a comparison that does not speak of the result is an invariant, everything
/// else is a postcondition.
pub open spec fn property_kind(statement: Seq<char>) -> PropertyType {
    if (text::holds(statement, "≥"@) || text::holds(statement, ">="@) || text::holds(
        statement,
        "≤"@,
    ) || text::holds(statement, "<="@) || text::holds(statement, "="@)) && !(text::holds(
        statement,
        "result"@,
    ) || text::holds(statement, "return"@)) {
        PropertyType::Invariant
    } else {
        PropertyType::Ensures
    }
}

/// The property that a line states.
pub open spec fn property_of(h: Hit) -> PropertyView {
    let statement = chars::trimmed(patterns::group_text(h.0, 2));
    PropertyView {
        name: chars::trimmed(patterns::group_text(h.0, 1)),
        statement,
        property_type: property_kind(statement),
    }
}

/// The properties that lines state.
pub open spec fn properties_given(hits: Seq<Hit>) -> Seq<PropertyView> {
    hits.map_values(|h: Hit| property_of(h))
}

/// Where the list of properties in a block begins.
pub open spec fn list_start(block: Seq<char>) -> Option<int> {
    if text::find(block, "**Properties**:"@) is Some {
        text::find(block, "**Properties**:"@)
    } else {
        text::find(block, "**Properties** :"@)
    }
}

/// The properties that the block of a function lists.
pub open spec fn block_properties(block: Seq<char>) -> Seq<PropertyView> {
    match list_start(block) {
        Some(p) => properties_given(patterns::pattern_all(PROPERTY_LINE@, block.skip(p))),
        None => seq![],
    }
}

fn kind_of_property(statement: &str) -> (r: PropertyType)
    ensures
        r == property_kind(statement@),
{
    if (contains(statement, "≥") || contains(statement, ">=") || contains(statement, "≤")
        || contains(statement, "<=") || contains(statement, "=")) && !(contains(statement, "result")
        || contains(statement, "return")) {
        PropertyType::Invariant
    } else {
        PropertyType::Ensures
    }
}

/// The properties that lines state.
pub fn read_properties(found: &Vec<Found>) -> (r: Vec<Property>)
    ensures
        spec_types::property_views(r@) == properties_given(patterns::found_views(found@)),
{
    let mut out: Vec<Property> = Vec::new();
    let mut i: usize = 0;
    while i < found.len()
        invariant
            i <= found.len(),
            out@.len() == i,
            forall|k: int| 0 <= k < i ==> (#[trigger] out@[k])@ == property_of(found@[k]@),
        decreases found.len() - i,
    {
        let name = trim(found[i].text_of(1).as_str());
        let statement = trim(found[i].text_of(2).as_str());
        let property_type = kind_of_property(statement.as_str());
        out.push(Property { name, statement, property_type });
        i += 1;
    }
    proof {
        assert(spec_types::property_views(out@) =~= properties_given(patterns::found_views(found@)));
    }
    out
}

fn tail_from(s: &str, p: usize) -> (r: String)
    requires
        p <= s@.len(),
    ensures
        r@ == s@.skip(p as int),
{
    let v = to_chars(s);
    proof {
        assert(s@.subrange(p as int, s@.len() as int) =~= s@.skip(p as int));
    }
    from_range(v.as_slice(), p, v.len())
}

/// The properties that the block of a function lists.
pub fn extract_properties_from_block(block: &str) -> (r: Vec<Property>)
    ensures
        spec_types::property_views(r@) == block_properties(block@),
{
    let start = match find_str(block, "**Properties**:") {
        Some(p) => Some(p),
        None => find_str(block, "**Properties** :"),
    };
    match start {
        Some(p) => {
            proof {
                text::lemma_find_from(block@, "**Properties**:"@, 0);
                text::lemma_find_from(block@, "**Properties** :"@, 0);
            }
            let list = tail_from(block, p);
            let found = captures_iter(PROPERTY_LINE, list.as_str());
            read_properties(&found)
        },
        None => {
            let out: Vec<Property> = Vec::new();
            proof {
                assert(spec_types::property_views(out@) =~= seq![]);
            }
            out
        },
    }
}

// ---------------------------------------------------------------------------
// Theorems
// ---------------------------------------------------------------------------
/// The first five lines of a text in one.
pub open spec fn opening(s: Seq<char>) -> Seq<char> {
    let lines = text::lines(s);
    chars::trimmed(
        text::joined(
            if lines.len() <= 5 {
                lines
            } else {
                lines.take(5)
            },
            " "@,
        ),
    )
}

/// Whether a text looks like a statement about `name`.
pub open spec fn mathematical(s: Seq<char>, name: Seq<char>) -> bool {
    text::holds(s, "∀"@) || text::holds(s, "∈"@) || text::holds(s, "≥"@) || text::holds(s, "≤"@)
        || text::holds(s, "="@) || text::holds(s, name)
}

/// The statement of a theorem: the formula that follows its head, or the lines that follow where
/// they look like a statement, or a reference.
pub open spec fn statement_given(
    after: Seq<char>,
    block: Option<Seq<char>>,
    inline_formula: Option<Seq<char>>,
    number: Seq<char>,
    name: Seq<char>,
) -> Seq<char> {
    if block is Some && block->0.len() > 0 {
        block->0
    } else if inline_formula is Some && inline_formula->0.len() > 0 {
        inline_formula->0
    } else if mathematical(opening(after), name) && opening(after).len() > 0 {
        opening(after)
    } else {
        "See Orange Paper Theorem "@ + number + " for full statement"@
    }
}

/// The theorem that a head opens.
pub open spec fn theorem_of(h: Hit, name: Seq<char>) -> TheoremView {
    let number = patterns::group_text(h.0, 1);
    TheoremView {
        number,
        name: patterns::group_text(h.0, 2),
        statement: statement_given(
            h.2,
            patterns::group_of(FORMULA_BLOCK@, h.2, 1),
            patterns::group_of(INLINE_FORMULA@, h.2, 1),
            number,
            name,
        ),
        proof_reference: if text::holds(h.2, "proof"@) || text::holds(h.2, "verification"@) {
            Some("Formal verification"@)
        } else {
            None
        },
    }
}

/// The theorems that heads open.
pub open spec fn theorems_given(hits: Seq<Hit>, name: Seq<char>) -> Seq<TheoremView> {
    hits.map_values(|h: Hit| theorem_of(h, name))
}

/// The theorems in the block of a function.
pub open spec fn block_theorems(block: Seq<char>, name: Seq<char>) -> Seq<TheoremView> {
    theorems_given(patterns::pattern_all(THEOREM_HEAD@, block), name)
}

fn is_empty_text(s: &str) -> (r: bool)
    ensures
        r == (s@.len() == 0),
{
    proof {
        reveal_strlit("");
        assert(s@.len() == 0 ==> s@ =~= ""@);
    }
    same(s, "")
}

fn opening_of(s: &str) -> (r: String)
    ensures
        r@ == opening(s@),
{
    let mut lines = lines_of(s);
    let ghost all = lines@;
    if lines.len() > 5 {
        lines.truncate(5);
    }
    proof {
        assert(text::views(all).len() == all.len());
        if all.len() > 5 {
            assert(text::views(lines@) =~= text::lines(s@).take(5));
        }
    }
    let one = crate::text::join(lines.as_slice(), " ");
    trim(one.as_str())
}

/// The statement of a theorem, by the formulas that follow its head.
pub fn statement_of_theorem(
    after: &str,
    block: Option<String>,
    inline_formula: Option<String>,
    number: &str,
    name: &str,
) -> (r: String)
    ensures
        r@ == statement_given(
            after@,
            patterns::group_view(block),
            patterns::group_view(inline_formula),
            number@,
            name@,
        ),
{
    if let Some(s) = block {
        if !is_empty_text(s.as_str()) {
            return s;
        }
    }
    if let Some(s) = inline_formula {
        if !is_empty_text(s.as_str()) {
            return s;
        }
    }
    let p = opening_of(after);
    let s = p.as_str();
    if (contains(s, "∀") || contains(s, "∈") || contains(s, "≥") || contains(s, "≤") || contains(
        s,
        "=",
    ) || contains(s, name)) && !is_empty_text(s) {
        return p;
    }
    cat3("See Orange Paper Theorem ", number, " for full statement")
}

fn read_theorem(f: &Found, name: &str) -> (r: Theorem)
    ensures
        r@ == theorem_of(f@, name@),
{
    let number = f.text_of(1);
    let after = f.after.as_str();
    let block = capture_group(FORMULA_BLOCK, after, 1);
    let inline_formula = capture_group(INLINE_FORMULA, after, 1);
    let statement = statement_of_theorem(after, block, inline_formula, number.as_str(), name);
    let proof_reference = if contains(after, "proof") || contains(after, "verification") {
        Some("Formal verification".to_owned())
    } else {
        None
    };
    Theorem { number, name: f.text_of(2), statement, proof_reference }
}

/// The theorems that heads open.
pub fn read_theorems(found: &Vec<Found>, name: &str) -> (r: Vec<Theorem>)
    ensures
        spec_types::theorem_views(r@) == theorems_given(patterns::found_views(found@), name@),
{
    let mut out: Vec<Theorem> = Vec::new();
    let mut i: usize = 0;
    while i < found.len()
        invariant
            i <= found.len(),
            out@.len() == i,
            forall|k: int| 0 <= k < i ==> (#[trigger] out@[k])@ == theorem_of(found@[k]@, name@),
        decreases found.len() - i,
    {
        out.push(read_theorem(&found[i], name));
        i += 1;
    }
    proof {
        assert(spec_types::theorem_views(out@) =~= theorems_given(
            patterns::found_views(found@),
            name@,
        ));
    }
    out
}

/// The theorems in the block of a function.
pub fn extract_theorems(block: &str, name: &str) -> (r: Vec<Theorem>)
    ensures
        spec_types::theorem_views(r@) == block_theorems(block@, name@),
{
    let found = captures_iter(THEOREM_HEAD, block);
    read_theorems(&found, name)
}

// ---------------------------------------------------------------------------
// Contracts
// ---------------------------------------------------------------------------
/// The contract that a property gives.
pub open spec fn property_contract(p: PropertyView, name: Seq<char>) -> ContractView {
    ContractView {
        contract_type: if p.property_type == PropertyType::Requires {
            ContractType::Requires
        } else {
            ContractType::Ensures
        },
        condition: spec_text::condition_of(p.statement, name),
        comment: Some(p.name),
    }
}

/// The contracts that properties give.
pub open spec fn property_contracts(ps: Seq<PropertyView>, name: Seq<char>) -> Seq<ContractView> {
    ps.map_values(|p: PropertyView| property_contract(p, name))
}

/// Whether a part of a theorem speaks of the function `name`, by both in lower case.
pub open spec fn speaks_given(
    part: Seq<char>,
    name: Seq<char>,
    part_lower: Seq<char>,
    name_lower: Seq<char>,
) -> bool {
    text::holds(part_lower, name_lower) || text::holds(part, r"\text{"@ + name + "}"@)
}

/// Whether a part of a theorem speaks of the function `name`.
pub open spec fn speaks_of(part: Seq<char>, name: Seq<char>) -> bool {
    speaks_given(part, name, chars::unicode_lower(part), chars::unicode_lower(name))
}

/// The contracts that the first `n` parts of a theorem give on the function `name`.
pub open spec fn part_contracts(
    parts: Seq<Seq<char>>,
    n: int,
    number: Seq<char>,
    name: Seq<char>,
) -> Seq<ContractView>
    decreases n,
{
    if n <= 0 || n > parts.len() {
        seq![]
    } else {
        let part = chars::trimmed(parts[n - 1]);
        let done = part_contracts(parts, n - 1, number, name);
        if speaks_of(part, name) {
            done.push(
                ContractView {
                    contract_type: ContractType::Ensures,
                    condition: spec_text::condition_of(part, name),
                    comment: Some("From Theorem "@ + number),
                },
            )
        } else {
            done
        }
    }
}

/// The contracts that a theorem gives: one for each part between the signs of conjunction that
/// speaks of the function.
pub open spec fn theorem_contracts(t: TheoremView, name: Seq<char>) -> Seq<ContractView> {
    let parts = text::parts(t.statement, "∧"@);
    part_contracts(parts, parts.len() as int, t.number, name)
}

/// The contracts that the first `n` theorems give.
pub open spec fn theorems_contracts(ts: Seq<TheoremView>, n: int, name: Seq<char>) -> Seq<
    ContractView,
>
    decreases n,
{
    if n <= 0 || n > ts.len() {
        seq![]
    } else {
        theorems_contracts(ts, n - 1, name) + theorem_contracts(ts[n - 1], name)
    }
}

/// Whether a part of a theorem speaks of the function `name`, by both in lower case.
pub fn is_spoken_of(part: &str, name: &str, part_lower: &str, name_lower: &str) -> (r: bool)
    ensures
        r == speaks_given(part@, name@, part_lower@, name_lower@),
{
    let latex = cat3(r"\text{", name, "}");
    contains(part_lower, name_lower) || contains(part, latex.as_str())
}

/// The contracts that properties give.
pub fn generate_contracts(ps: &Vec<Property>, name: &str) -> (r: Vec<Contract>)
    ensures
        spec_types::contract_views(r@) == property_contracts(
            spec_types::property_views(ps@),
            name@,
        ),
{
    let mut out: Vec<Contract> = Vec::new();
    let mut i: usize = 0;
    while i < ps.len()
        invariant
            i <= ps.len(),
            out@.len() == i,
            forall|k: int| 0 <= k < i ==> (#[trigger] out@[k])@ == property_contract(ps@[k]@, name@),
        decreases ps.len() - i,
    {
        let p = &ps[i];
        let contract_type = match p.property_type {
            PropertyType::Requires => ContractType::Requires,
            PropertyType::Ensures => ContractType::Ensures,
            PropertyType::Invariant => ContractType::Ensures,
        };
        let condition = translate_property_to_rust(p.statement.as_str(), name);
        out.push(
            Contract { contract_type, condition, comment: Some(p.name.as_str().to_owned()) },
        );
        i += 1;
    }
    proof {
        assert(spec_types::contract_views(out@) =~= property_contracts(
            spec_types::property_views(ps@),
            name@,
        ));
    }
    out
}

fn add_theorem_contracts(t: &Theorem, name: &str, out: &mut Vec<Contract>)
    ensures
        spec_types::contract_views(final(out)@) == spec_types::contract_views(old(out)@)
            + theorem_contracts(t@, name@),
{
    proof {
        reveal_strlit("∧");
    }
    let parts = split(t.statement.as_str(), "∧");
    let name_lower = to_lowercase(name);
    let ghost pv = text::views(parts@);
    let ghost had = spec_types::contract_views(out@);
    let mut i: usize = 0;
    proof {
        assert(had + Seq::<ContractView>::empty() =~= had);
        assert(pv.len() == parts@.len());
    }
    while i < parts.len()
        invariant
            i <= parts.len(),
            pv == text::views(parts@),
            name_lower@ == chars::unicode_lower(name@),
            spec_types::contract_views(out@) == had + part_contracts(
                pv,
                i as int,
                t.number@,
                name@,
            ),
        decreases parts.len() - i,
    {
        proof {
            assert(pv[i as int] == parts@[i as int]@);
            assert(pv.len() == parts@.len());
        }
        let part = trim(parts[i].as_str());
        let lower = to_lowercase(part.as_str());
        if is_spoken_of(part.as_str(), name, lower.as_str(), name_lower.as_str()) {
            let condition = translate_property_to_rust(part.as_str(), name);
            let comment = Some(cat("From Theorem ", t.number.as_str()));
            let c = Contract { contract_type: ContractType::Ensures, condition, comment };
            let ghost now = out@;
            let ghost cv = c@;
            out.push(c);
            proof {
                assert(spec_types::contract_views(out@) =~= spec_types::contract_views(now).push(
                    cv,
                ));
                assert((had + part_contracts(pv, i as int, t.number@, name@)).push(cv) =~= had
                    + part_contracts(pv, i as int, t.number@, name@).push(cv));
            }
        }
        i += 1;
    }
}

/// Adds the contracts that theorems give.
pub fn generate_contracts_from_theorems(ts: &Vec<Theorem>, name: &str, out: &mut Vec<Contract>)
    ensures
        spec_types::contract_views(final(out)@) == spec_types::contract_views(old(out)@)
            + theorems_contracts(spec_types::theorem_views(ts@), ts@.len() as int, name@),
{
    let ghost tv = spec_types::theorem_views(ts@);
    let ghost had = spec_types::contract_views(out@);
    let mut i: usize = 0;
    proof {
        assert(had + Seq::<ContractView>::empty() =~= had);
    }
    while i < ts.len()
        invariant
            i <= ts.len(),
            tv == spec_types::theorem_views(ts@),
            spec_types::contract_views(out@) == had + theorems_contracts(tv, i as int, name@),
        decreases ts.len() - i,
    {
        proof {
            assert(tv[i as int] == ts@[i as int]@);
            assert(had + theorems_contracts(tv, i as int, name@) + theorem_contracts(
                tv[i as int],
                name@,
            ) =~= had + (theorems_contracts(tv, i as int, name@) + theorem_contracts(
                tv[i as int],
                name@,
            )));
        }
        add_theorem_contracts(&ts[i], name, out);
        i += 1;
    }
}

// ---------------------------------------------------------------------------
// Functions
// ---------------------------------------------------------------------------
/// The block of the function `name`: from behind its first head to the next one.
pub open spec fn function_block(content: Seq<char>, name: Seq<char>) -> Seq<char> {
    let head = "**"@ + name + "**"@;
    match text::find(content, head) {
        Some(p) => {
            let rest = content.skip(p + head.len());
            rest.take(spec_text::block_end(rest, 0))
        },
        None => seq![],
    }
}

/// The conditions of contracts.
pub open spec fn conditions_of(cs: Seq<ContractView>) -> Seq<Seq<char>> {
    cs.map_values(|c: ContractView| c.condition)
}

/// A function of a specification.
pub open spec fn function_of(
    name: Seq<char>,
    section: Seq<char>,
    signature: Option<Seq<char>>,
    content: Seq<char>,
) -> FunctionView {
    let block = function_block(content, name);
    let properties = block_properties(block);
    let theorems = block_theorems(block, name);
    let contracts = property_contracts(properties, name) + theorems_contracts(
        theorems,
        theorems.len() as int,
        name,
    );
    FunctionView {
        name,
        section,
        signature,
        properties,
        theorems,
        contracts,
        content: seq![],
        conditions: conditions_of(contracts),
        formula: spec_text::formula_from(text::lines(content), 0, None, name),
        description: None,
    }
}

/// Whether a head opens a function: it names something, and not a list of properties or a theorem.
pub open spec fn opens_function(h: Hit) -> bool {
    let name = patterns::group_text(h.0, 1);
    name.len() > 0 && name != "Properties"@ && name != "Theorem"@
}

/// The functions that the first `n` heads open.
pub open spec fn functions_given(hits: Seq<Hit>, n: int, section: Seq<char>, content: Seq<char>) -> Seq<
    FunctionView,
>
    decreases n,
{
    if n <= 0 || n > hits.len() {
        seq![]
    } else {
        let done = functions_given(hits, n - 1, section, content);
        let h = hits[n - 1];
        if opens_function(h) {
            done.push(
                function_of(
                    patterns::group_text(h.0, 1),
                    section,
                    patterns::group_in(h.0, 2),
                    content,
                ),
            )
        } else {
            done
        }
    }
}

/// The functions of a section.
pub open spec fn section_functions(section: Seq<char>, content: Seq<char>) -> Seq<FunctionView> {
    let hits = patterns::pattern_all(FUNCTION_HEAD@, content);
    functions_given(hits, hits.len() as int, section, content)
}

fn block_of(content: &str, name: &str) -> (r: String)
    ensures
        r@ == function_block(content@, name@),
{
    let head = cat3("**", name, "**");
    match find_str(content, head.as_str()) {
        Some(p) => {
            proof {
                text::lemma_find_from(content@, head@, 0);
            }
            let n: usize = to_chars(head.as_str()).len();
            let rest = tail_from(content, p + n);
            let end = find_next_function_boundary(rest.as_str());
            let v = to_chars(rest.as_str());
            proof {
                assert(rest@.subrange(0, end as int) =~= rest@.take(end as int));
            }
            from_range(v.as_slice(), 0, end)
        },
        None => {
            let r = String::new();
            proof {
                assert(r@ =~= seq![]);
            }
            r
        },
    }
}

fn copy_conditions(cs: &Vec<Contract>) -> (r: Vec<String>)
    ensures
        text::views(r@) == conditions_of(spec_types::contract_views(cs@)),
{
    let mut out: Vec<String> = Vec::new();
    let mut i: usize = 0;
    while i < cs.len()
        invariant
            i <= cs.len(),
            out@.len() == i,
            forall|k: int| 0 <= k < i ==> (#[trigger] out@[k])@ == cs@[k].condition@,
        decreases cs.len() - i,
    {
        out.push(cs[i].condition.as_str().to_owned());
        i += 1;
    }
    proof {
        assert(text::views(out@) =~= conditions_of(spec_types::contract_views(cs@)));
    }
    out
}

/// A function of a specification, with what its block and its section say of it.
pub fn read_function(name: &str, section: &str, signature: Option<String>, content: &str) -> (r:
    FunctionSpec)
    ensures
        r@ == function_of(name@, section@, patterns::group_view(signature), content@),
{
    let block = block_of(content, name);
    let properties = extract_properties_from_block(block.as_str());
    let theorems = extract_theorems(block.as_str(), name);
    let mut contracts = generate_contracts(&properties, name);
    generate_contracts_from_theorems(&theorems, name, &mut contracts);
    let conditions = copy_conditions(&contracts);
    let blank = String::new();
    proof {
        assert(blank@ =~= seq![]);
        assert(spec_types::theorem_views(theorems@).len() == theorems@.len());
    }
    FunctionSpec {
        name: name.to_owned(),
        section: section.to_owned(),
        signature,
        properties,
        theorems,
        contracts,
        content: blank,
        conditions,
        formula: extract_formula(content, name),
        description: None,
    }
}

/// The functions that heads open.
pub fn read_functions(found: &Vec<Found>, section: &str, content: &str) -> (r: Vec<FunctionSpec>)
    ensures
        spec_types::function_views(r@) == functions_given(
            patterns::found_views(found@),
            found@.len() as int,
            section@,
            content@,
        ),
{
    let ghost hits = patterns::found_views(found@);
    let mut out: Vec<FunctionSpec> = Vec::new();
    let mut i: usize = 0;
    proof {
        assert(spec_types::function_views(out@) =~= seq![]);
    }
    while i < found.len()
        invariant
            i <= found.len(),
            hits == patterns::found_views(found@),
            spec_types::function_views(out@) == functions_given(
                hits,
                i as int,
                section@,
                content@,
            ),
        decreases found.len() - i,
    {
        proof {
            assert(hits[i as int] == found@[i as int]@);
        }
        let name = found[i].text_of(1);
        let n = name.as_str();
        if !is_empty_text(n) && !same(n, "Properties") && !same(n, "Theorem") {
            let f = read_function(n, section, found[i].group(2), content);
            let ghost now = out@;
            let ghost fv = f@;
            out.push(f);
            proof {
                assert(spec_types::function_views(out@) =~= spec_types::function_views(now).push(
                    fv,
                ));
            }
        }
        i += 1;
    }
    out
}

// ---------------------------------------------------------------------------
// Invariants of implementations
// ---------------------------------------------------------------------------
/// Where the invariants of a section begin.
pub open spec fn invariants_start(content: Seq<char>) -> Option<int> {
    if text::find(content, "**Implementation Invariants**"@) is Some {
        text::find(content, "**Implementation Invariants**"@)
    } else if text::find(
        content,
        "**Implementation Invariants (BLVM Specification Lock Verified)**"@,
    ) is Some {
        text::find(content, "**Implementation Invariants (BLVM Specification Lock Verified)**"@)
    } else {
        text::find(content, "**Invariants**"@)
    }
}

/// The invariant that a line states.
pub open spec fn invariant_of(h: Hit) -> PropertyView {
    PropertyView {
        name: chars::trimmed(patterns::group_text(h.0, 1)),
        statement: chars::trimmed(patterns::group_text(h.0, 2)),
        property_type: PropertyType::Invariant,
    }
}

/// The invariants that lines state, as a function of the section that stands for all its functions.
pub open spec fn invariants_given(hits: Seq<Hit>, section: Seq<char>) -> Option<FunctionView> {
    if hits.len() == 0 {
        None
    } else {
        let properties = hits.map_values(|h: Hit| invariant_of(h));
        Some(
            FunctionView {
                name: "*"@,
                section,
                signature: None,
                properties,
                theorems: seq![],
                contracts: property_contracts(properties, "*"@),
                content: seq![],
                conditions: seq![],
                formula: None,
                description: None,
            },
        )
    }
}

/// The invariants of a section.
pub open spec fn section_invariants(section: Seq<char>, content: Seq<char>) -> Option<FunctionView> {
    match invariants_start(content) {
        Some(p) => invariants_given(
            patterns::pattern_all(INVARIANT_LINE@, content.skip(p)),
            section,
        ),
        None => None,
    }
}

/// An optional function as a mathematical value.
pub open spec fn function_view(f: Option<FunctionSpec>) -> Option<FunctionView> {
    match f {
        Some(x) => Some(x@),
        None => None,
    }
}

/// The invariants that lines state, as a function of the section that stands for all its functions.
pub fn read_invariants(found: &Vec<Found>, section: &str) -> (r: Option<FunctionSpec>)
    ensures
        function_view(r) == invariants_given(patterns::found_views(found@), section@),
{
    if found.len() == 0 {
        return None;
    }
    let ghost hits = patterns::found_views(found@);
    let mut properties: Vec<Property> = Vec::new();
    let mut i: usize = 0;
    while i < found.len()
        invariant
            i <= found.len(),
            properties@.len() == i,
            forall|k: int|
                0 <= k < i ==> (#[trigger] properties@[k])@ == invariant_of(found@[k]@),
        decreases found.len() - i,
    {
        let name = trim(found[i].text_of(1).as_str());
        let statement = trim(found[i].text_of(2).as_str());
        properties.push(Property { name, statement, property_type: PropertyType::Invariant });
        i += 1;
    }
    proof {
        assert(spec_types::property_views(properties@) =~= hits.map_values(
            |h: Hit| invariant_of(h),
        ));
    }
    let contracts = generate_contracts(&properties, "*");
    let blank = String::new();
    let theorems: Vec<Theorem> = Vec::new();
    let conditions: Vec<String> = Vec::new();
    proof {
        assert(blank@ =~= seq![]);
        assert(spec_types::theorem_views(theorems@) =~= seq![]);
        assert(text::views(conditions@) =~= seq![]);
    }
    Some(
        FunctionSpec {
            name: "*".to_owned(),
            section: section.to_owned(),
            signature: None,
            properties,
            theorems,
            contracts,
            content: blank,
            conditions,
            formula: None,
            description: None,
        },
    )
}

/// The invariants of a section.
pub fn extract_implementation_invariants(section: &str, content: &str) -> (r: Option<FunctionSpec>)
    ensures
        function_view(r) == section_invariants(section@, content@),
{
    let start = match find_str(content, "**Implementation Invariants**") {
        Some(p) => Some(p),
        None => match find_str(
            content,
            "**Implementation Invariants (BLVM Specification Lock Verified)**",
        ) {
            Some(p) => Some(p),
            None => find_str(content, "**Invariants**"),
        },
    };
    match start {
        Some(p) => {
            proof {
                text::lemma_find_from(content@, "**Implementation Invariants**"@, 0);
                text::lemma_find_from(
                    content@,
                    "**Implementation Invariants (BLVM Specification Lock Verified)**"@,
                    0,
                );
                text::lemma_find_from(content@, "**Invariants**"@, 0);
            }
            let block = tail_from(content, p);
            let found = captures_iter(INVARIANT_LINE, block.as_str());
            read_invariants(&found, section)
        },
        None => None,
    }
}

// ---------------------------------------------------------------------------
// Constants
// ---------------------------------------------------------------------------
/// A text without the closing braces at its end.
pub open spec fn without_braces(s: Seq<char>) -> Seq<char>
    decreases s.len(),
{
    if s.len() > 0 && s.last() == '}' {
        without_braces(s.drop_last())
    } else {
        s
    }
}

/// The name of a constant: in capitals, with a subscript in braces behind an underscore, and never
/// two underscores in a row.
pub open spec fn constant_name(raw: Seq<char>) -> Seq<char> {
    let parts = text::parts(raw, "{"@);
    text::replaced(
        if text::holds(raw, "{"@) && parts.len() == 2 {
            chars::unicode_upper(parts[0]) + "_"@ + chars::unicode_upper(without_braces(parts[1]))
        } else {
            chars::unicode_upper(raw)
        },
        "__"@,
        "_"@,
    )
}

/// The description of a constant, closed by a bracket.
pub open spec fn constant_description(raw: Option<Seq<char>>) -> Seq<char> {
    match raw {
        Some(d) => if text::holds(d, ")"@) {
            d
        } else {
            d + ")"@
        },
        None => seq![],
    }
}

/// The constant that a line states.
pub open spec fn constant_of(h: Hit, section: Seq<char>) -> Result<ConstantView, Seq<char>> {
    let value = chars::trimmed(patterns::group_text(h.0, 2));
    match spec_text::constant_value(value) {
        Ok((rust_type, rust_expr)) => Ok(
            ConstantView {
                name: constant_name(patterns::group_text(h.0, 1)),
                section,
                value,
                rust_type,
                rust_expr,
                description: constant_description(patterns::group_in(h.0, 3)),
            },
        ),
        Err(e) => Err(e),
    }
}

/// The constants that the first `n` lines state, or what is wrong with the first one that is not
/// understood.
pub open spec fn constants_given(hits: Seq<Hit>, n: int, section: Seq<char>) -> Result<
    Seq<ConstantView>,
    Seq<char>,
>
    decreases n,
{
    if n <= 0 || n > hits.len() {
        Ok(seq![])
    } else {
        match constants_given(hits, n - 1, section) {
            Ok(done) => match constant_of(hits[n - 1], section) {
                Ok(c) => Ok(done.push(c)),
                Err(e) => Err(e),
            },
            Err(e) => Err(e),
        }
    }
}

/// The constants of a section. Only the sections of chapter four have any.
pub open spec fn section_constants(section: Seq<char>, content: Seq<char>) -> Result<
    Seq<ConstantView>,
    Seq<char>,
> {
    if text::starts(section, "4."@) {
        let hits = patterns::pattern_all(CONSTANT_LINE@, content);
        constants_given(hits, hits.len() as int, section)
    } else {
        Ok(seq![])
    }
}

fn drop_braces(s: &str) -> (r: String)
    ensures
        r@ == without_braces(s@),
{
    let v = to_chars(s);
    let mut n: usize = v.len();
    proof {
        assert(s@.take(n as int) =~= s@);
    }
    while n > 0 && v[n - 1] == '}'
        invariant
            n <= v@.len(),
            v@ == s@,
            without_braces(s@) == without_braces(s@.take(n as int)),
        decreases n,
    {
        proof {
            assert(s@.take(n as int).drop_last() =~= s@.take(n - 1));
            assert(s@.take(n as int).last() == s@[n - 1]);
        }
        n -= 1;
    }
    proof {
        if n > 0 {
            assert(s@.take(n as int).last() == s@[n - 1]);
        }
        assert(s@.subrange(0, n as int) =~= s@.take(n as int));
    }
    from_range(v.as_slice(), 0, n)
}

/// The name of a constant.
pub fn name_constant(raw: &str) -> (r: String)
    ensures
        r@ == constant_name(raw@),
{
    proof {
        reveal_strlit("{");
    }
    let parts = split(raw, "{");
    proof {
        assert(text::views(parts@).len() == parts@.len());
    }
    let name = if contains(raw, "{") && parts.len() == 2 {
        proof {
            assert(text::views(parts@)[0] == parts@[0]@);
            assert(text::views(parts@)[1] == parts@[1]@);
        }
        let base = to_uppercase(parts[0].as_str());
        let sub = to_uppercase(drop_braces(parts[1].as_str()).as_str());
        cat3(base.as_str(), "_", sub.as_str())
    } else {
        to_uppercase(raw)
    };
    replace(name.as_str(), "__", "_")
}

fn describe_constant(raw: Option<String>) -> (r: String)
    ensures
        r@ == constant_description(patterns::group_view(raw)),
{
    match raw {
        Some(d) => {
            if contains(d.as_str(), ")") {
                d
            } else {
                cat(d.as_str(), ")")
            }
        },
        None => {
            let r = String::new();
            proof {
                assert(r@ =~= seq![]);
            }
            r
        },
    }
}

/// Constants or an error, as mathematical values.
pub open spec fn constants_view(r: Result<Vec<ExtractedConstant>, String>) -> Result<
    Seq<ConstantView>,
    Seq<char>,
> {
    match r {
        Ok(v) => Ok(spec_types::constant_views(v@)),
        Err(e) => Err(e@),
    }
}

fn read_constant(f: &Found, section: &str) -> (r: Result<ExtractedConstant, String>)
    ensures
        match r {
            Ok(c) => constant_of(f@, section@) == Ok::<ConstantView, Seq<char>>(c@),
            Err(e) => constant_of(f@, section@) == Err::<ConstantView, Seq<char>>(e@),
        },
{
    let value = trim(f.text_of(2).as_str());
    match parse_constant_value(value.as_str()) {
        Ok((rust_type, rust_expr)) => {
            let c = ExtractedConstant {
                name: name_constant(f.text_of(1).as_str()),
                section: section.to_owned(),
                value,
                rust_type,
                rust_expr,
                description: describe_constant(f.group(3)),
            };
            Ok(c)
        },
        Err(e) => Err(e),
    }
}

proof fn lemma_constants_fail(hits: Seq<Hit>, k: int, n: int, section: Seq<char>)
    requires
        0 <= k <= n <= hits.len(),
        constants_given(hits, k, section) is Err,
    ensures
        constants_given(hits, n, section) == constants_given(hits, k, section),
    decreases n - k,
{
    if k < n {
        lemma_constants_fail(hits, k, n - 1, section);
    }
}

/// The constants that lines state, or what is wrong with the first one that is not understood.
pub fn read_constants(found: &Vec<Found>, section: &str) -> (r: Result<
    Vec<ExtractedConstant>,
    String,
>)
    ensures
        constants_view(r) == constants_given(
            patterns::found_views(found@),
            found@.len() as int,
            section@,
        ),
{
    let ghost hits = patterns::found_views(found@);
    let mut out: Vec<ExtractedConstant> = Vec::new();
    let mut i: usize = 0;
    proof {
        assert(spec_types::constant_views(out@) =~= seq![]);
    }
    while i < found.len()
        invariant
            i <= found.len(),
            hits == patterns::found_views(found@),
            constants_given(hits, i as int, section@) == Ok::<Seq<ConstantView>, Seq<char>>(
                spec_types::constant_views(out@),
            ),
        decreases found.len() - i,
    {
        proof {
            assert(hits[i as int] == found@[i as int]@);
        }
        match read_constant(&found[i], section) {
            Ok(c) => {
                let ghost now = out@;
                let ghost cv = c@;
                out.push(c);
                proof {
                    assert(spec_types::constant_views(out@) =~= spec_types::constant_views(
                        now,
                    ).push(cv));
                }
            },
            Err(e) => {
                proof {
                    lemma_constants_fail(hits, i + 1, hits.len() as int, section@);
                }
                return Err(e);
            },
        }
        i += 1;
    }
    Ok(out)
}

/// The constants of a section.
pub fn extract_constants_from_section(section: &str, content: &str) -> (r: Result<
    Vec<ExtractedConstant>,
    String,
>)
    ensures
        constants_view(r) == section_constants(section@, content@),
{
    if crate::text::starts_with(section, "4.") {
        let found = captures_iter(CONSTANT_LINE, content);
        proof {
            assert(patterns::found_views(found@).len() == found@.len());
        }
        read_constants(&found, section)
    } else {
        let none: Vec<ExtractedConstant> = Vec::new();
        proof {
            assert(spec_types::constant_views(none@) =~= seq![]);
        }
        Ok(none)
    }
}

// ---------------------------------------------------------------------------
// Properties that stand by themselves
// ---------------------------------------------------------------------------
/// Whether a text command names something other than a function.
pub open spec fn plain_word(s: Seq<char>) -> bool {
    s == "inputs"@ || s == "outputs"@ || s == "valid"@ || s == "invalid"@ || s == "value"@
}

/// The functions that the first `n` text commands name.
pub open spec fn names_given(hits: Seq<Hit>, n: int) -> Seq<Seq<char>>
    decreases n,
{
    if n <= 0 || n > hits.len() {
        seq![]
    } else {
        let name = patterns::group_text(hits[n - 1].0, 1);
        if plain_word(name) {
            names_given(hits, n - 1)
        } else {
            names_given(hits, n - 1).push(name)
        }
    }
}

/// What a property says: its kind, the outer and the inner function, and what it is restricted to.
pub type Shape = (
    StandalonePropertyType,
    Option<Seq<char>>,
    Option<Seq<char>>,
    Option<Seq<char>>,
);

/// Whether `p` stands in `s` at two places that do not overlap.
pub open spec fn holds_twice(s: Seq<char>, p: Seq<char>) -> bool {
    match text::find(s, p) {
        Some(i) => text::holds(s.skip(i + p.len()), p),
        None => false,
    }
}

/// What a property says, by the functions that its formula names. With two of them the first one is
/// applied to the second one; with one that stands there twice the property is on its repetition.
pub open spec fn shape_given(formula: Seq<char>, names: Seq<Seq<char>>) -> Shape {
    if names.len() >= 2 {
        (
            StandalonePropertyType::RoundTrip,
            Some(names[0]),
            Some(names[1]),
            if text::holds(formula, "|w|"@) && text::holds(formula, "|tx"@) {
                Some("|w| = |tx.inputs|"@)
            } else if text::holds(formula, "implies"@) || text::holds(formula, "⟹"@) {
                Some(chars::trimmed(text::before(formula, "implies"@)))
            } else {
                None
            },
        )
    } else if names.len() == 1 && holds_twice(formula, names[0]) {
        (StandalonePropertyType::Idempotent, Some(names[0]), Some(names[0]), None)
    } else {
        (StandalonePropertyType::Other, None, None, None)
    }
}

/// What a property says, by its formula.
pub open spec fn shape_of(formula: Seq<char>) -> Shape {
    let hits = patterns::pattern_all(TEXT_COMMAND@, formula);
    shape_given(formula, names_given(hits, hits.len() as int))
}

/// The property that a head opens, by the formula that follows.
pub open spec fn standalone_of(h: Hit, section: Seq<char>, formula: Seq<char>) -> StandaloneView {
    let shape = shape_of(formula);
    StandaloneView {
        name: chars::trimmed(patterns::group_text(h.0, 1)),
        section_id: section,
        formula_raw: formula,
        property_type: shape.0,
        outer_func: shape.1,
        inner_func: shape.2,
        constraint: shape.3,
    }
}

/// The formula that follows the head of a property.
pub open spec fn following_formula(h: Hit) -> Seq<char> {
    match patterns::group_of(FORMULA_BLOCK@, h.1, 1) {
        Some(f) => chars::trimmed(f),
        None => seq![],
    }
}

/// The properties that the first `n` heads open. A head that no formula follows opens none.
pub open spec fn standalone_given(hits: Seq<Hit>, n: int, section: Seq<char>) -> Seq<StandaloneView>
    decreases n,
{
    if n <= 0 || n > hits.len() {
        seq![]
    } else {
        let done = standalone_given(hits, n - 1, section);
        let formula = following_formula(hits[n - 1]);
        if formula.len() == 0 {
            done
        } else {
            done.push(standalone_of(hits[n - 1], section, formula))
        }
    }
}

/// The properties of a section that stand by themselves.
pub open spec fn section_standalone(section: Seq<char>, content: Seq<char>) -> Seq<StandaloneView> {
    let hits = patterns::pattern_all(PROPERTY_HEAD@, content);
    standalone_given(hits, hits.len() as int, section)
}

/// What a property says, in strings.
pub struct PropertyShape {
    pub property_type: StandalonePropertyType,
    pub outer_func: Option<String>,
    pub inner_func: Option<String>,
    pub constraint: Option<String>,
}

impl View for PropertyShape {
    type V = Shape;

    open spec fn view(&self) -> Shape {
        (
            self.property_type,
            patterns::group_view(self.outer_func),
            patterns::group_view(self.inner_func),
            patterns::group_view(self.constraint),
        )
    }
}

fn stands_twice(s: &str, p: &str) -> (r: bool)
    ensures
        r == holds_twice(s@, p@),
{
    match find_str(s, p) {
        Some(i) => {
            proof {
                text::lemma_find_from(s@, p@, 0);
            }
            let n: usize = to_chars(p).len();
            let rest = tail_from(s, i + n);
            contains(rest.as_str(), p)
        },
        None => false,
    }
}

/// What a property says, by the functions that its formula names.
pub fn shape_by_names(formula: &str, names: &Vec<String>) -> (r: PropertyShape)
    ensures
        r@ == shape_given(formula@, text::views(names@)),
{
    proof {
        assert(text::views(names@).len() == names@.len());
        assert(names@.len() > 0 ==> text::views(names@)[0] == names@[0]@);
        assert(names@.len() > 1 ==> text::views(names@)[1] == names@[1]@);
    }
    if names.len() >= 2 {
        let constraint = if contains(formula, "|w|") && contains(formula, "|tx") {
            Some("|w| = |tx.inputs|".to_owned())
        } else if contains(formula, "implies") || contains(formula, "⟹") {
            Some(trim(before_str(formula, "implies").as_str()))
        } else {
            None
        };
        return PropertyShape {
            property_type: StandalonePropertyType::RoundTrip,
            outer_func: Some(names[0].as_str().to_owned()),
            inner_func: Some(names[1].as_str().to_owned()),
            constraint,
        };
    }
    if names.len() == 1 && stands_twice(formula, names[0].as_str()) {
        return PropertyShape {
            property_type: StandalonePropertyType::Idempotent,
            outer_func: Some(names[0].as_str().to_owned()),
            inner_func: Some(names[0].as_str().to_owned()),
            constraint: None,
        };
    }
    PropertyShape {
        property_type: StandalonePropertyType::Other,
        outer_func: None,
        inner_func: None,
        constraint: None,
    }
}

fn is_plain_word(s: &str) -> (r: bool)
    ensures
        r == plain_word(s@),
{
    same(s, "inputs") || same(s, "outputs") || same(s, "valid") || same(s, "invalid") || same(
        s,
        "value",
    )
}

/// The functions that text commands name.
pub fn read_names(found: &Vec<Found>) -> (r: Vec<String>)
    ensures
        text::views(r@) == names_given(patterns::found_views(found@), found@.len() as int),
{
    let ghost hits = patterns::found_views(found@);
    let mut out: Vec<String> = Vec::new();
    let mut i: usize = 0;
    proof {
        assert(text::views(out@) =~= seq![]);
    }
    while i < found.len()
        invariant
            i <= found.len(),
            hits == patterns::found_views(found@),
            text::views(out@) == names_given(hits, i as int),
        decreases found.len() - i,
    {
        proof {
            assert(hits[i as int] == found@[i as int]@);
        }
        let name = found[i].text_of(1);
        if !is_plain_word(name.as_str()) {
            let ghost now = out@;
            let ghost nv = name@;
            out.push(name);
            proof {
                assert(text::views(out@) =~= text::views(now).push(nv));
            }
        }
        i += 1;
    }
    out
}

/// What a property says, by its formula.
pub fn parse_round_trip_formula(formula: &str) -> (r: PropertyShape)
    ensures
        r@ == shape_of(formula@),
{
    let found = captures_iter(TEXT_COMMAND, formula);
    proof {
        assert(patterns::found_views(found@).len() == found@.len());
    }
    let names = read_names(&found);
    shape_by_names(formula, &names)
}

fn formula_behind(f: &Found) -> (r: String)
    ensures
        r@ == following_formula(f@),
{
    match capture_group(FORMULA_BLOCK, f.from.as_str(), 1) {
        Some(s) => trim(s.as_str()),
        None => {
            let r = String::new();
            proof {
                assert(r@ =~= seq![]);
            }
            r
        },
    }
}

/// The properties that heads open.
pub fn read_standalone(found: &Vec<Found>, section: &str) -> (r: Vec<StandaloneProperty>)
    ensures
        spec_types::standalone_views(r@) == standalone_given(
            patterns::found_views(found@),
            found@.len() as int,
            section@,
        ),
{
    let ghost hits = patterns::found_views(found@);
    let mut out: Vec<StandaloneProperty> = Vec::new();
    let mut i: usize = 0;
    proof {
        assert(spec_types::standalone_views(out@) =~= seq![]);
    }
    while i < found.len()
        invariant
            i <= found.len(),
            hits == patterns::found_views(found@),
            spec_types::standalone_views(out@) == standalone_given(hits, i as int, section@),
        decreases found.len() - i,
    {
        proof {
            assert(hits[i as int] == found@[i as int]@);
        }
        let formula = formula_behind(&found[i]);
        if !is_empty_text(formula.as_str()) {
            let shape = parse_round_trip_formula(formula.as_str());
            let p = StandaloneProperty {
                name: trim(found[i].text_of(1).as_str()),
                section_id: section.to_owned(),
                formula_raw: formula,
                property_type: shape.property_type,
                outer_func: shape.outer_func,
                inner_func: shape.inner_func,
                constraint: shape.constraint,
            };
            let ghost now = out@;
            let ghost pv = p@;
            out.push(p);
            proof {
                assert(spec_types::standalone_views(out@) =~= spec_types::standalone_views(
                    now,
                ).push(pv));
            }
        }
        i += 1;
    }
    out
}

/// The properties of a section that stand by themselves.
pub fn extract_standalone_properties(section: &str, content: &str) -> (r: Vec<StandaloneProperty>)
    ensures
        spec_types::standalone_views(r@) == section_standalone(section@, content@),
{
    let found = captures_iter(PROPERTY_HEAD, content);
    proof {
        assert(patterns::found_views(found@).len() == found@.len());
    }
    read_standalone(&found, section)
}

// ---------------------------------------------------------------------------
// Formulas with names
// ---------------------------------------------------------------------------
/// The block of a formula: from its head to the next head of a formula.
pub open spec fn formula_block(hits: Seq<Hit>, i: int) -> Seq<char> {
    let from = hits[i].1;
    if i + 1 < hits.len() && hits[i + 1].1.len() <= from.len() {
        from.take(from.len() - hits[i + 1].1.len())
    } else {
        from
    }
}

/// The names that stand in a list.
pub open spec fn ids_given(hits: Seq<Hit>) -> Seq<Seq<char>> {
    hits.map_values(|h: Hit| patterns::group_text(h.0, 0))
}

/// The formulas that a block says it builds on.
pub open spec fn block_dependencies(block: Seq<char>) -> Seq<Seq<char>> {
    match patterns::group_of(DEPENDS_LINE@, block, 1) {
        Some(list) => ids_given(patterns::pattern_all(STABLE_ID@, list)),
        None => seq![],
    }
}

/// The formula whose block is `block`.
pub open spec fn formula_of(h: Hit, block: Seq<char>, section: Seq<char>) -> FormulaView {
    FormulaView {
        id: patterns::group_text(h.0, 1),
        section,
        latex_body: match patterns::group_of(FORMULA_BLOCK@, block, 1) {
            Some(f) => f,
            None => seq![],
        },
        raw_markdown: block,
        depends_on: block_dependencies(block),
    }
}

/// The formulas that heads open.
pub open spec fn formulas_given(hits: Seq<Hit>, section: Seq<char>) -> Seq<FormulaView> {
    Seq::new(hits.len(), |i: int| formula_of(hits[i], formula_block(hits, i), section))
}

/// The formulas of a section.
pub open spec fn section_formulas(section: Seq<char>, content: Seq<char>) -> Seq<FormulaView> {
    formulas_given(patterns::pattern_all(NAMED_FORMULA@, content), section)
}

fn block_of_formula(found: &Vec<Found>, i: usize) -> (r: String)
    requires
        i < found@.len(),
    ensures
        r@ == formula_block(patterns::found_views(found@), i as int),
{
    let ghost hits = patterns::found_views(found@);
    proof {
        assert(hits[i as int] == found@[i as int]@);
    }
    let v = to_chars(found[i].from.as_str());
    let last: usize = found.len() - 1;
    if i < last {
        proof {
            assert(hits[i + 1] == found@[i + 1]@);
        }
        let n: usize = to_chars(found[i + 1].from.as_str()).len();
        if n <= v.len() {
            proof {
                assert(v@.subrange(0, v@.len() - n) =~= v@.take(v@.len() - n));
            }
            return from_range(v.as_slice(), 0, v.len() - n);
        }
    }
    found[i].from.as_str().to_owned()
}

/// The names that stand in a list.
pub fn read_ids(found: &Vec<Found>) -> (r: Vec<String>)
    ensures
        text::views(r@) == ids_given(patterns::found_views(found@)),
{
    let mut out: Vec<String> = Vec::new();
    let mut i: usize = 0;
    while i < found.len()
        invariant
            i <= found.len(),
            out@.len() == i,
            forall|k: int|
                0 <= k < i ==> (#[trigger] out@[k])@ == patterns::group_text(found@[k]@.0, 0),
        decreases found.len() - i,
    {
        out.push(found[i].text_of(0));
        i += 1;
    }
    proof {
        assert(text::views(out@) =~= ids_given(patterns::found_views(found@)));
    }
    out
}

fn dependencies_in(block: &str) -> (r: Vec<String>)
    ensures
        text::views(r@) == block_dependencies(block@),
{
    match capture_group(DEPENDS_LINE, block, 1) {
        Some(list) => {
            let found = captures_iter(STABLE_ID, list.as_str());
            read_ids(&found)
        },
        None => {
            let none: Vec<String> = Vec::new();
            proof {
                assert(text::views(none@) =~= seq![]);
            }
            none
        },
    }
}

fn body_in(block: &str) -> (r: String)
    ensures
        r@ == (match patterns::group_of(FORMULA_BLOCK@, block@, 1) {
            Some(f) => f,
            None => seq![],
        }),
{
    match capture_group(FORMULA_BLOCK, block, 1) {
        Some(f) => f,
        None => {
            let r = String::new();
            proof {
                assert(r@ =~= seq![]);
            }
            r
        },
    }
}

/// The formulas that heads open.
pub fn read_formulas(found: &Vec<Found>, section: &str) -> (r: Vec<FormulaSpec>)
    ensures
        spec_types::formula_views(r@) == formulas_given(patterns::found_views(found@), section@),
{
    let ghost hits = patterns::found_views(found@);
    let mut out: Vec<FormulaSpec> = Vec::new();
    let mut i: usize = 0;
    while i < found.len()
        invariant
            i <= found.len(),
            hits == patterns::found_views(found@),
            out@.len() == i,
            forall|k: int|
                0 <= k < i ==> (#[trigger] out@[k])@ == formula_of(
                    hits[k],
                    formula_block(hits, k),
                    section@,
                ),
        decreases found.len() - i,
    {
        proof {
            assert(hits[i as int] == found@[i as int]@);
        }
        let block = block_of_formula(found, i);
        out.push(
            FormulaSpec {
                id: found[i].text_of(1),
                section: section.to_owned(),
                latex_body: body_in(block.as_str()),
                depends_on: dependencies_in(block.as_str()),
                raw_markdown: block,
            },
        );
        i += 1;
    }
    proof {
        assert(spec_types::formula_views(out@) =~= formulas_given(hits, section@));
    }
    out
}

/// The formulas of a section.
pub fn extract_formulas(section: &str, content: &str) -> (r: Vec<FormulaSpec>)
    ensures
        spec_types::formula_views(r@) == section_formulas(section@, content@),
{
    let found = captures_iter(NAMED_FORMULA, content);
    read_formulas(&found, section)
}

/// A statement that compares and does not speak of the result is an invariant, and one that speaks
/// of the result is a postcondition.
pub proof fn law_statements_on_the_result_are_postconditions(
    statement: Seq<char>,
    a: Seq<char>,
    sign: Seq<char>,
    b: Seq<char>,
)
    requires
        sign == "≥"@ || sign == ">="@ || sign == "≤"@ || sign == "<="@ || sign == "="@,
    ensures
        text::holds(statement, "result"@) || text::holds(statement, "return"@) ==> property_kind(statement)
            is Ensures,
        !text::holds(a + sign + b, "result"@) && !text::holds(a + sign + b, "return"@) ==> property_kind(
            a + sign + b,
        ) is Invariant,
{
    let n = a.len() as int;
    assert((a + sign + b).subrange(n, n + sign.len()) =~= sign);
    assert(text::occurs_at(a + sign + b, sign, n));
}

/// A property is a precondition only where it is stated as one.
pub proof fn law_property_keeps_its_kind(p: PropertyView, name: Seq<char>)
    ensures
        property_contract(p, name).contract_type is Requires <==> p.property_type is Requires,
        property_contract(p, name).contract_type is Requires || property_contract(p, name).contract_type
            is Ensures,
{
}

} // verus!
