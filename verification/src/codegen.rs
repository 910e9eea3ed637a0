//! Rust code from a specification: constants, helpers for tests of formulas, and tests of round trips.
use vstd::prelude::*;
use crate::bindings;
use crate::bindings::{get_binding, Bindings, TomlForm};
use crate::chars;
use crate::chars::{to_lowercase, trim};
use crate::patterns;
use crate::report;
use crate::report::{line_of_text, print_all, Printed};
use crate::spec_types::{
    ExtractedConstant,
    FunctionSpec,
    StandaloneProperty,
    StandalonePropertyType,
};
use crate::text;
use crate::text::{cat, cat3, contains, front_of, join, replace, same, shorter_than};

verus! {

// ---------------------------------------------------------------------------
// Constants
// ---------------------------------------------------------------------------
/// The module of constants.
pub struct ConstantsModule;

/// The value of a constant. One that counts in units of the currency is converted where it is signed.
pub open spec fn constant_expression(c: ExtractedConstant) -> Seq<char> {
    if text::holds(c.rust_expr@, "* C"@) && c.rust_type@ == "i64"@ {
        "("@ + c.rust_expr@ + ") as i64"@
    } else {
        c.rust_expr@
    }
}

impl<'a> Printed<ConstantsModule> for &'a ExtractedConstant {
    open spec fn printed(self) -> Seq<char> {
        report::text_line("/// "@, self.description@) + "/// \n"@ + report::text_line(
            "/// Source: Orange Paper Section "@,
            self.section@,
        ) + "/// Formula: $"@ + self.name@ + " = "@ + self.value@ + "$\n"@ + "pub const "@
            + self.name@ + ": "@ + self.rust_type@ + " = "@ + constant_expression(*self)
            + ";\n\n"@
    }

    fn print(&self) -> (r: String) {
        let expression = if contains(self.rust_expr.as_str(), "* C") && same(
            self.rust_type.as_str(),
            "i64",
        ) {
            cat3("(", self.rust_expr.as_str(), ") as i64")
        } else {
            self.rust_expr.as_str().to_owned()
        };
        let mut s = line_of_text("/// ", self.description.as_str());
        s.append("/// \n");
        s.append(line_of_text("/// Source: Orange Paper Section ", self.section.as_str()).as_str());
        s.append("/// Formula: $");
        s.append(self.name.as_str());
        s.append(" = ");
        s.append(self.value.as_str());
        s.append("$\n");
        s.append("pub const ");
        s.append(self.name.as_str());
        s.append(": ");
        s.append(self.rust_type.as_str());
        s.append(" = ");
        s.append(expression.as_str());
        s.append(";\n\n");
        s
    }
}

/// The heading of the module of constants.
pub const CONSTANTS_HEADING: &'static str =
    "//! Constants extracted from Orange Paper Section 4 (Consensus Constants)\n//!\n//! This file is AUTO-GENERATED from blvm-spec/THE_ORANGE_PAPER.md\n//! DO NOT EDIT MANUALLY - changes should be made to Orange Paper\n//!\n//! To regenerate: cargo spec-lock extract-constants\n//!\n//! These constants are always available for use in property tests and code.\n//! Each constant is linked to its Orange Paper section via documentation comments.\n\n";

/// The module of constants.
pub fn generate_constants_module(constants: &Vec<&ExtractedConstant>) -> (r: String)
    ensures
        r@ == CONSTANTS_HEADING@ + report::all_printed::<ConstantsModule, &ExtractedConstant>(
            constants@,
            constants@.len() as int,
        ),
{
    let mut s = CONSTANTS_HEADING.to_owned();
    s.append(print_all::<ConstantsModule, &ExtractedConstant>(constants).as_str());
    s
}

// ---------------------------------------------------------------------------
// Formulas
// ---------------------------------------------------------------------------
/// Whether one of two texts holds a word.
pub open spec fn either_holds(a: Seq<char>, b: Seq<char>, word: Seq<char>) -> bool {
    text::holds(a, word) || text::holds(b, word)
}

fn does_either_hold(a: &str, b: &str, word: &str) -> (r: bool)
    ensures
        r == either_holds(a@, b@, word@),
{
    contains(a, word) || contains(b, word)
}

/// Whether there is a helper for a function, by its name and its formula in small letters: those on the
/// subsidy of a block and on the supply.
pub open spec fn implementable(name: Seq<char>, formula: Seq<char>) -> bool {
    either_holds(name, formula, "getblocksubsidy"@) || either_holds(
        name,
        formula,
        "get_block_subsidy"@,
    ) || either_holds(name, formula, "blocksubsidy"@) || either_holds(
        name,
        formula,
        "totalsupply"@,
    ) || either_holds(name, formula, "total_supply"@) || either_holds(name, formula, "supply"@)
}

/// Whether there is a helper for a function, by its name and its formula in small letters.
pub fn is_implementable(name: &str, formula: &str) -> (r: bool)
    ensures
        r == implementable(name@, formula@),
{
    does_either_hold(name, formula, "getblocksubsidy") || does_either_hold(
        name,
        formula,
        "get_block_subsidy",
    ) || does_either_hold(name, formula, "blocksubsidy") || does_either_hold(
        name,
        formula,
        "totalsupply",
    ) || does_either_hold(name, formula, "total_supply") || does_either_hold(name, formula, "supply")
}

/// The body of the helper for the subsidy of a block.
pub const BLOCK_SUBSIDY_BODY: &'static str =
    "    let halving_period = height / H;\n    let initial_subsidy = 50 * C;  // 50 BTC = 50 × C\n    if halving_period >= 64 {\n        0\n    } else {\n        initial_subsidy >> halving_period  // Uses Orange Paper formula: 50 × C × 2^(-⌊h/H⌋)\n    }";

/// The body of the helper for the supply.
pub const TOTAL_SUPPLY_BODY: &'static str =
    "    // TotalSupply(h) = sum of all block subsidies from 0 to h\n    // Formula: TotalSupply(h) = sum_{i=0}^{h} GetBlockSubsidy(i)\n    // This is computed by summing GetBlockSubsidy for each height\n    let mut total = 0i64;\n    for h in 0..=height {\n        let halving_period = h / H;\n        let initial_subsidy = 50 * C;\n        if halving_period < 64 {\n            total += (initial_subsidy >> halving_period) as i64;\n        }\n    }\n    total";

/// The body of the helper for a fee.
pub const CALCULATE_FEE_BODY: &'static str =
    "    // CalculateFee(inputs, outputs) = sum(inputs.value) - sum(outputs.value)\n    // Note: This is a placeholder - actual implementation needs input/output values\n    // TODO: Implement with actual transaction inputs and outputs\n    0";

/// A formula without its dollar signs.
pub open spec fn undollared(formula: Seq<char>) -> Seq<char> {
    chars::trimmed(text::replaced(formula, "$$"@, ""@))
}

/// The body for a formula that there is no helper for.
pub open spec fn open_body(formula: Seq<char>, name: Seq<char>) -> Seq<char> {
    "    // TODO: Implement formula translation for "@ + name + "\n    // Formula: "@ + text::front(
        undollared(formula),
        80,
    )
        + "...\n    // This formula requires manual implementation\n    unimplemented!(\"Formula translation not yet implemented for "@
        + name + "\")"@
}

/// The body of the helper for a formula. `low` and `formula_low` are the name and the formula in small
/// letters.
pub open spec fn body_given(
    formula: Seq<char>,
    name: Seq<char>,
    low: Seq<char>,
    formula_low: Seq<char>,
) -> Seq<char> {
    if either_holds(low, formula_low, "getblocksubsidy"@) || either_holds(
        low,
        formula_low,
        "block_subsidy"@,
    ) {
        BLOCK_SUBSIDY_BODY@
    } else if either_holds(low, formula_low, "totalsupply"@) || either_holds(
        low,
        formula_low,
        "total_supply"@,
    ) {
        TOTAL_SUPPLY_BODY@
    } else if either_holds(low, formula_low, "calculatefee"@) || either_holds(
        low,
        formula_low,
        "calculate_fee"@,
    ) {
        CALCULATE_FEE_BODY@
    } else {
        open_body(formula, name)
    }
}

fn remove_dollars(formula: &str) -> (r: String)
    ensures
        r@ == undollared(formula@),
{
    let a = replace(formula, "$$", "");
    trim(a.as_str())
}

/// The body of the helper for a formula, by the name and the formula also in small letters.
pub fn body_of_helper(formula: &str, name: &str, low: &str, formula_low: &str) -> (r: String)
    ensures
        r@ == body_given(formula@, name@, low@, formula_low@),
{
    if does_either_hold(low, formula_low, "getblocksubsidy") || does_either_hold(
        low,
        formula_low,
        "block_subsidy",
    ) {
        BLOCK_SUBSIDY_BODY.to_owned()
    } else if does_either_hold(low, formula_low, "totalsupply") || does_either_hold(
        low,
        formula_low,
        "total_supply",
    ) {
        TOTAL_SUPPLY_BODY.to_owned()
    } else if does_either_hold(low, formula_low, "calculatefee") || does_either_hold(
        low,
        formula_low,
        "calculate_fee",
    ) {
        CALCULATE_FEE_BODY.to_owned()
    } else {
        let plain = remove_dollars(formula);
        let mut s = "    // TODO: Implement formula translation for ".to_owned();
        s.append(name);
        s.append("\n    // Formula: ");
        s.append(front_of(plain.as_str(), 80).as_str());
        s.append(
            "...\n    // This formula requires manual implementation\n    unimplemented!(\"Formula translation not yet implemented for ",
        );
        s.append(name);
        s.append("\")");
        s
    }
}

/// The body of the helper for a formula.
pub fn translate_formula_to_rust(formula: &str, func_name: &str) -> (r: String)
    ensures
        r@ == body_given(
            formula@,
            func_name@,
            chars::unicode_lower(func_name@),
            chars::unicode_lower(formula@),
        ),
{
    let low = to_lowercase(func_name);
    let formula_low = to_lowercase(formula);
    body_of_helper(formula, func_name, low.as_str(), formula_low.as_str())
}

/// Parameters with one more, where the formula is applied to it.
pub open spec fn with_parameter(
    v: Seq<Seq<char>>,
    formula: Seq<char>,
    alone: Seq<char>,
    first: Seq<char>,
    parameter: Seq<char>,
) -> Seq<Seq<char>> {
    if text::holds(formula, alone) || text::holds(formula, first) {
        v.push(parameter)
    } else {
        v
    }
}

/// The parameters of the helper for a formula: those that something in it is applied to, or else the
/// height for the subsidy and the supply.
pub open spec fn formula_parameters(formula: Seq<char>, name: Seq<char>) -> Seq<Seq<char>> {
    let none: Seq<Seq<char>> = seq![];
    let a = with_parameter(none, formula, "(h)"@, "(h,"@, "height: u64"@);
    let b = with_parameter(a, formula, "(tx)"@, "(tx,"@, "tx: &Transaction"@);
    let c = with_parameter(b, formula, "(b)"@, "(b,"@, "block: &Block"@);
    let d = with_parameter(c, formula, "(us)"@, "(us,"@, "utxo_set: &UtxoSet"@);
    if d.len() == 0 && (text::holds(name, "Subsidy"@) || text::holds(name, "Supply"@)) {
        seq!["height: u64"@]
    } else {
        d
    }
}

fn push_parameter(v: &mut Vec<String>, formula: &str, alone: &str, first: &str, parameter: &str)
    ensures
        text::views(final(v)@) == with_parameter(
            text::views(old(v)@),
            formula@,
            alone@,
            first@,
            parameter@,
        ),
{
    let ghost had = v@;
    if contains(formula, alone) || contains(formula, first) {
        let p = parameter.to_owned();
        v.push(p);
        proof {
            assert(text::views(v@) =~= text::views(had).push(p@));
        }
    }
}

/// The parameters of the helper for a formula.
pub fn extract_formula_parameters(formula: &str, func_name: &str) -> (r: Vec<String>)
    ensures
        text::views(r@) == formula_parameters(formula@, func_name@),
{
    let mut v: Vec<String> = Vec::new();
    proof {
        assert(text::views(v@) =~= seq![]);
    }
    push_parameter(&mut v, formula, "(h)", "(h,", "height: u64");
    push_parameter(&mut v, formula, "(tx)", "(tx,", "tx: &Transaction");
    push_parameter(&mut v, formula, "(b)", "(b,", "block: &Block");
    push_parameter(&mut v, formula, "(us)", "(us,", "utxo_set: &UtxoSet");
    proof {
        assert(text::views(v@).len() == v@.len());
    }
    if v.len() == 0 && (contains(func_name, "Subsidy") || contains(func_name, "Supply")) {
        v.push("height: u64".to_owned());
        proof {
            assert(text::views(v@) =~= seq!["height: u64"@]);
        }
    }
    v
}

/// A formula in the documentation of its helper: without commands, or where it is long a reference.
pub open spec fn formula_words(formula: Seq<char>, section: Seq<char>) -> Seq<char> {
    let t = undollared(formula);
    if text::byte_len(t) > 100 {
        "See Orange Paper Section "@ + section + " for full formula"@
    } else {
        let a = text::replaced(t, "\\text{"@, ""@);
        let b = text::replaced(a, "\\begin{cases}"@, ""@);
        let c = text::replaced(b, "\\end{cases}"@, ""@);
        let d = text::replaced(c, "\\times"@, "×"@);
        let e = text::replaced(d, "\\geq"@, "≥"@);
        text::front(text::replaced(e, "\\leq"@, "≤"@), 100)
    }
}

/// A formula in the documentation of its helper.
pub fn words_for_formula(formula: &str, section: &str) -> (r: String)
    ensures
        r@ == formula_words(formula@, section@),
{
    let t = remove_dollars(formula);
    if !shorter_than(t.as_str(), 101) {
        return cat3("See Orange Paper Section ", section, " for full formula");
    }
    let a = replace(t.as_str(), "\\text{", "");
    let b = replace(a.as_str(), "\\begin{cases}", "");
    let c = replace(b.as_str(), "\\end{cases}", "");
    let d = replace(c.as_str(), "\\times", "×");
    let e = replace(d.as_str(), "\\geq", "≥");
    let f = replace(e.as_str(), "\\leq", "≤");
    front_of(f.as_str(), 100)
}

/// The parameters of a helper in its head.
pub open spec fn parameter_text(formula: Seq<char>, name: Seq<char>) -> Seq<char> {
    let v = formula_parameters(formula, name);
    if v.len() == 0 {
        "_params: u64"@
    } else {
        text::joined(v, ", "@)
    }
}

/// What the helper for a function returns.
pub open spec fn return_text(name: Seq<char>) -> Seq<char> {
    if text::holds(name, "valid"@) || text::holds(name, "Check"@) || text::holds(name, "Validate"@) {
        "bool"@
    } else {
        "i64"@
    }
}

/// The helper for a function with a formula. `low` and `formula_low` are its name and its formula in
/// small letters.
pub open spec fn helper_given(
    f: FunctionSpec,
    formula: Seq<char>,
    low: Seq<char>,
    formula_low: Seq<char>,
) -> Seq<char> {
    let s = "/// Expected result from Orange Paper formula\n"@ + "/// \n"@ + report::text_line(
        "/// Source: Orange Paper Section "@,
        f.section@,
    ) + report::text_line("/// Formula: "@, formula_words(formula, f.section@)) + "/// \n"@;
    let s = match f.description {
        Some(d) => s + report::text_line("/// "@, text::front(d@, 200)),
        None => s,
    };
    s + "pub fn expected_"@ + text::replaced(low, " "@, "_"@) + "_from_orange_paper("@
        + parameter_text(formula, f.name@) + ") -> "@ + return_text(f.name@) + " {\n"@
        + report::text_line("    "@, body_given(formula, f.name@, low, formula_low)) + "}\n\n"@
}

/// The helper for a function with a formula, by its name and its formula also in small letters.
pub fn helper_for(f: &FunctionSpec, formula: &str, low: &str, formula_low: &str) -> (r: String)
    ensures
        r@ == helper_given(*f, formula@, low@, formula_low@),
{
    let mut s = "/// Expected result from Orange Paper formula\n".to_owned();
    s.append("/// \n");
    s.append(line_of_text("/// Source: Orange Paper Section ", f.section.as_str()).as_str());
    let words = words_for_formula(formula, f.section.as_str());
    s.append(line_of_text("/// Formula: ", words.as_str()).as_str());
    s.append("/// \n");
    if let Some(d) = &f.description {
        let short = front_of(d.as_str(), 200);
        s.append(line_of_text("/// ", short.as_str()).as_str());
    }
    s.append("pub fn expected_");
    s.append(replace(low, " ", "_").as_str());
    s.append("_from_orange_paper(");
    let params = extract_formula_parameters(formula, f.name.as_str());
    proof {
        assert(text::views(params@).len() == params@.len());
    }
    if params.len() == 0 {
        s.append("_params: u64");
    } else {
        s.append(join(params.as_slice(), ", ").as_str());
    }
    s.append(") -> ");
    let name = f.name.as_str();
    if contains(name, "valid") || contains(name, "Check") || contains(name, "Validate") {
        s.append("bool");
    } else {
        s.append("i64");
    }
    s.append(" {\n");
    let body = body_of_helper(formula, name, low, formula_low);
    s.append(line_of_text("    ", body.as_str()).as_str());
    s.append("}\n\n");
    s
}

/// The helpers for tests of formulas.
pub struct HelpersModule;

impl<'a> Printed<HelpersModule> for &'a FunctionSpec {
    open spec fn printed(self) -> Seq<char> {
        match self.formula {
            Some(x) => {
                let low = chars::unicode_lower(self.name@);
                let formula_low = chars::unicode_lower(x@);
                if implementable(low, formula_low) {
                    helper_given(*self, x@, low, formula_low)
                } else {
                    ""@
                }
            },
            None => ""@,
        }
    }

    fn print(&self) -> (r: String) {
        match &self.formula {
            Some(x) => {
                let low = to_lowercase(self.name.as_str());
                let formula_low = to_lowercase(x.as_str());
                if is_implementable(low.as_str(), formula_low.as_str()) {
                    helper_for(*self, x.as_str(), low.as_str(), formula_low.as_str())
                } else {
                    "".to_owned()
                }
            },
            None => "".to_owned(),
        }
    }
}

/// The heading of the helpers for tests of formulas.
pub const HELPERS_HEADING: &'static str =
    "//! Property test helpers generated from Orange Paper formulas\n//!\n//! This file is AUTO-GENERATED from blvm-spec/THE_ORANGE_PAPER.md\n//! DO NOT EDIT MANUALLY - changes should be made to Orange Paper\n//!\n//! To regenerate: cargo spec-lock extract-formulas\n//!\n//! These helpers allow property tests to compare implementation results\n//! against the mathematical formulas defined in the Orange Paper.\n\nuse blvm_consensus::orange_paper_constants::*;\n#[cfg(test)]\nuse proptest::prelude::*;\n\n";

/// The helpers for tests of formulas.
pub fn generate_property_helpers(functions: &Vec<&FunctionSpec>) -> (r: String)
    ensures
        r@ == HELPERS_HEADING@ + report::all_printed::<HelpersModule, &FunctionSpec>(
            functions@,
            functions@.len() as int,
        ),
{
    let mut s = HELPERS_HEADING.to_owned();
    s.append(print_all::<HelpersModule, &FunctionSpec>(functions).as_str());
    s
}

// ---------------------------------------------------------------------------
// Round trips
// ---------------------------------------------------------------------------
/// The properties by reference that say that one function undoes another, and name both.
pub open spec fn round_trips(v: Seq<&StandaloneProperty>, n: int) -> Seq<&StandaloneProperty>
    decreases n,
{
    if n <= 0 || n > v.len() {
        seq![]
    } else {
        let p = v[n - 1];
        if p.property_type == StandalonePropertyType::RoundTrip && p.inner_func is Some
            && p.outer_func is Some {
            round_trips(v, n - 1).push(p)
        } else {
            round_trips(v, n - 1)
        }
    }
}

/// The properties that say that one function undoes another, and name both.
pub fn select_round_trips<'a>(v: &Vec<&'a StandaloneProperty>) -> (r: Vec<&'a StandaloneProperty>)
    ensures
        r@ == round_trips(v@, v@.len() as int),
{
    let mut out: Vec<&'a StandaloneProperty> = Vec::new();
    let mut i: usize = 0;
    while i < v.len()
        invariant
            i <= v@.len(),
            out@ == round_trips(v@, i as int),
        decreases v@.len() - i,
    {
        let p = v[i];
        if p.property_type == StandalonePropertyType::RoundTrip && p.inner_func.is_some()
            && p.outer_func.is_some() {
            out.push(p);
        }
        i += 1;
    }
    out
}

/// The path that a function is bound to, by its name or by its name with a header as that of a block.
pub open spec fn bound_either_way(t: TomlForm, name: Seq<char>) -> Option<Seq<char>> {
    match bindings::bound_path(t, name) {
        Some(s) => Some(s),
        None => bindings::bound_path(t, text::replaced(name, "Header"@, "BlockHeader"@)),
    }
}

fn find_binding(b: &Bindings, name: &str) -> (r: Option<String>)
    ensures
        patterns::group_view(r) == bound_either_way(b@, name@),
{
    match get_binding(b, name) {
        Some(s) => Some(s),
        None => {
            let other = replace(name, "Header", "BlockHeader");
            get_binding(b, other.as_str())
        },
    }
}

/// The name of a test, by the name of the property in small letters.
pub open spec fn test_name(low: Seq<char>) -> Seq<char> {
    let a = text::replaced(low, " "@, "_"@);
    let b = text::replaced(a, "-"@, "_"@);
    let c = text::replaced(b, "("@, ""@);
    "prop_"@ + text::replaced(c, ")"@, ""@)
}

/// The name of a test, by the name of the property in small letters.
pub fn name_of_test(low: &str) -> (r: String)
    ensures
        r@ == test_name(low@),
{
    let a = replace(low, " ", "_");
    let b = replace(a.as_str(), "-", "_");
    let c = replace(b.as_str(), "(", "");
    let d = replace(c.as_str(), ")", "");
    cat("prop_", d.as_str())
}

/// The head of a test.
pub open spec fn test_head(p: StandaloneProperty, low: Seq<char>) -> Seq<char> {
    "/// Property ("@ + p.name@ + ") - Orange Paper "@ + p.section_id@ + "\n"@ + "#[test]\nfn "@
        + test_name(low) + "() {\n"@
}

fn head_of_test(p: &StandaloneProperty, low: &str) -> (r: String)
    ensures
        r@ == test_head(*p, low@),
{
    let mut s = "/// Property (".to_owned();
    s.append(p.name.as_str());
    s.append(") - Orange Paper ");
    s.append(p.section_id.as_str());
    s.append("\n");
    s.append("#[test]\nfn ");
    s.append(name_of_test(low).as_str());
    s.append("() {\n");
    s
}

/// The body of a test of transactions.
pub const TRANSACTION_TEST: &'static str =
    "    proptest!(|(tx in blvm_consensus::test_utils::transaction_strategy())| {\n        let bytes = blvm_consensus::serialization::serialize_transaction(&tx);\n        let tx2 = blvm_consensus::serialization::deserialize_transaction(&bytes).unwrap();\n        prop_assert_eq!(tx, tx2);\n    });\n}\n\n";

/// The body of a test of the headers of blocks.
pub const HEADER_TEST: &'static str =
    "    use blvm_consensus::types::BlockHeader;\n    proptest!(|(v in any::<i64>(), prev in prop::array::uniform32(any::<u8>()), mr in prop::array::uniform32(any::<u8>()), ts in 0u64..u64::MAX, bits in any::<u64>(), nonce in any::<u64>())| {\n        let header = BlockHeader { version: v, prev_block_hash: prev, merkle_root: mr, timestamp: ts, bits, nonce };\n        let bytes = blvm_consensus::serialization::serialize_block_header(&header);\n        let header2 = blvm_consensus::serialization::deserialize_block_header(&bytes).unwrap();\n        prop_assert_eq!(header.version, header2.version);\n        prop_assert_eq!(header.prev_block_hash, header2.prev_block_hash);\n        prop_assert_eq!(header.merkle_root, header2.merkle_root);\n        prop_assert_eq!(header.timestamp, header2.timestamp);\n        prop_assert_eq!(header.bits, header2.bits);\n        prop_assert_eq!(header.nonce, header2.nonce);\n    });\n}\n\n";

/// A text that may be missing, or nothing.
pub open spec fn text_or_empty(s: Option<String>) -> Seq<char> {
    match s {
        Some(x) => x@,
        None => ""@,
    }
}

/// The test of a round trip, by the paths that its functions are bound to and by its name in small
/// letters.
pub open spec fn test_given(
    p: StandaloneProperty,
    inner: Option<Seq<char>>,
    outer: Option<Seq<char>>,
    low: Seq<char>,
) -> Seq<char> {
    match (inner, outer) {
        (Some(first), Some(last)) => if p.constraint is Some && text::holds(p.name@, "SegWit"@) {
            test_head(p, low)
                + "    proptest!(|((tx, w) in blvm_consensus::test_utils::transaction_with_witness_strategy())| {\n"@
                + "        let bytes = "@ + first + "(&tx, &w);\n"@
                + "        let (tx2, w2, _) = "@ + last + "(&bytes).unwrap();\n"@
                + "        prop_assert_eq!(tx, tx2);\n        prop_assert_eq!(w, w2);\n    });\n}\n\n"@
        } else if text::holds(p.name@, "Transaction"@) && !text::holds(p.name@, "SegWit"@) {
            test_head(p, low) + TRANSACTION_TEST@
        } else if text::holds(p.name@, "Header"@) {
            test_head(p, low) + HEADER_TEST@
        } else {
            "// TODO: "@ + p.name@ + " - add strategy\n"@
        },
        _ => "// Skipped "@ + p.name@ + ": missing binding for "@ + text_or_empty(p.inner_func)
            + " or "@ + text_or_empty(p.outer_func) + "\n"@,
    }
}

fn text_of(s: &Option<String>) -> (r: &str)
    ensures
        r@ == text_or_empty(*s),
{
    match s {
        Some(x) => x.as_str(),
        None => "",
    }
}

/// The views of optional texts by reference.
pub open spec fn path_view(s: Option<&str>) -> Option<Seq<char>> {
    match s {
        Some(x) => Some(x@),
        None => None,
    }
}

/// The test of a round trip, by the paths that its functions are bound to and by its name in small
/// letters.
pub fn test_for(p: &StandaloneProperty, inner: Option<&str>, outer: Option<&str>, low: &str) -> (r:
    String)
    ensures
        r@ == test_given(*p, path_view(inner), path_view(outer), low@),
{
    match (inner, outer) {
        (Some(first), Some(last)) => {
            let name = p.name.as_str();
            if p.constraint.is_some() && contains(name, "SegWit") {
                let mut s = head_of_test(p, low);
                s.append(
                    "    proptest!(|((tx, w) in blvm_consensus::test_utils::transaction_with_witness_strategy())| {\n",
                );
                s.append("        let bytes = ");
                s.append(first);
                s.append("(&tx, &w);\n");
                s.append("        let (tx2, w2, _) = ");
                s.append(last);
                s.append("(&bytes).unwrap();\n");
                s.append(
                    "        prop_assert_eq!(tx, tx2);\n        prop_assert_eq!(w, w2);\n    });\n}\n\n",
                );
                s
            } else if contains(name, "Transaction") && !contains(name, "SegWit") {
                let mut s = head_of_test(p, low);
                s.append(TRANSACTION_TEST);
                s
            } else if contains(name, "Header") {
                let mut s = head_of_test(p, low);
                s.append(HEADER_TEST);
                s
            } else {
                let mut s = "// TODO: ".to_owned();
                s.append(name);
                s.append(" - add strategy\n");
                s
            }
        },
        _ => {
            let mut s = "// Skipped ".to_owned();
            s.append(p.name.as_str());
            s.append(": missing binding for ");
            s.append(text_of(&p.inner_func));
            s.append(" or ");
            s.append(text_of(&p.outer_func));
            s.append("\n");
            s
        },
    }
}

/// The tests of the first `n` round trips.
pub open spec fn tests_given(v: Seq<&StandaloneProperty>, t: TomlForm, n: int) -> Seq<char>
    decreases n,
{
    if n <= 0 || n > v.len() {
        ""@
    } else {
        let p = v[n - 1];
        tests_given(v, t, n - 1) + test_given(
            *p,
            bound_either_way(t, text_or_empty(p.inner_func)),
            bound_either_way(t, text_or_empty(p.outer_func)),
            chars::unicode_lower(p.name@),
        )
    }
}

/// The heading of the tests of round trips.
pub const TESTS_HEADING: &'static str =
    "//! AUTO-GENERATED from Orange Paper - DO NOT EDIT\n//! Run: cargo spec-lock extract-property-tests --spec-path ... --output ...\n\n#![cfg(test)]\n#![cfg(feature = \"property-tests\")]\nuse proptest::prelude::*;\n\n";

fn path_of(s: &Option<String>) -> (r: Option<&str>)
    ensures
        path_view(r) == patterns::group_view(*s),
{
    match s {
        Some(x) => Some(x.as_str()),
        None => None,
    }
}

/// The tests of round trips.
pub fn generate_property_tests(round_trips: &Vec<&StandaloneProperty>, bindings: &Bindings) -> (r:
    String)
    ensures
        r@ == TESTS_HEADING@ + tests_given(round_trips@, bindings@, round_trips@.len() as int),
{
    let mut tests = "".to_owned();
    let mut i: usize = 0;
    while i < round_trips.len()
        invariant
            i <= round_trips@.len(),
            tests@ == tests_given(round_trips@, bindings@, i as int),
        decreases round_trips@.len() - i,
    {
        let p = round_trips[i];
        let inner = find_binding(bindings, text_of(&p.inner_func));
        let outer = find_binding(bindings, text_of(&p.outer_func));
        let low = to_lowercase(p.name.as_str());
        let one = test_for(p, path_of(&inner), path_of(&outer), low.as_str());
        tests.append(one.as_str());
        i += 1;
    }
    cat(TESTS_HEADING, tests.as_str())
}

} // verus!
