//! What the attributes of a function say of it: the section of the specification that it is locked to,
//! the formula or constant it is anchored to, and its contracts.
use std::rc::Rc;
use vstd::prelude::*;
use crate::ast::{Expr, FnItem, Path};
use crate::chars;
use crate::chars::{all_of, is_digit, CharClass};
use crate::contracts;
use crate::contracts::{is_path, kind_of_path, Attr, ContractType};
use crate::patterns;
use crate::patterns::capture_group;
use crate::rust_syntax;
use crate::source;
use crate::source::read_source;
use crate::text;
use crate::text::{cat, contains, find_str, from_range, same, starts_with, to_chars};
use crate::tree;

verus! {

/// `function = "F_x"` or `function = "C_x"`.
pub const NAMED_ANCHOR: &'static str = r#"function\s*=\s*"((?:F_|C_)[A-Za-z0-9_]+)""#;

/// `spec_locked("1.2::F_x")` or `spec_locked("1.2::C_x")`.
pub const COMBINED_ANCHOR: &'static str =
    r#"spec_locked\s*\(\s*"((?:\d+)(?:\.\d+)*)::((?:F_|C_)[A-Za-z0-9_]+)"\s*\)"#;

/// `spec_locked("1.2", "F_x")` or `spec_locked("1.2", "C_x")`.
pub const DUAL_ANCHOR: &'static str =
    r#"spec_locked\s*\(\s*"[^"]*"\s*,\s*"((?:F_|C_)[A-Za-z0-9_]+)""#;

/// A contract of a function, as it is written or as the specification gives it.
#[derive(Debug)]
pub struct Contract {
    pub contract_type: ContractType,
    pub condition: String,
    /// The condition, where it is an expression.
    pub expr: Option<Rc<Expr>>,
    /// Whether the contract comes from the specification and not from the code.
    pub is_spec_derived: bool,
}

/// A contract as a mathematical value.
#[verifier::ext_equal]
pub struct ContractView {
    pub contract_type: ContractType,
    pub condition: Seq<char>,
    pub expr: Option<Rc<Expr>>,
    pub is_spec_derived: bool,
}

impl View for Contract {
    type V = ContractView;

    open spec fn view(&self) -> ContractView {
        ContractView {
            contract_type: self.contract_type,
            condition: self.condition@,
            expr: self.expr,
            is_spec_derived: self.is_spec_derived,
        }
    }
}

/// Contracts as mathematical values.
pub open spec fn contract_views(v: Seq<Contract>) -> Seq<ContractView> {
    v.map_values(|c: Contract| c@)
}

/// A function to verify.
#[derive(Debug)]
pub struct FunctionToVerify {
    pub file_path: String,
    pub function_name: String,
    pub contracts: Vec<Contract>,
    pub section: Option<String>,
    /// The name of the function in the specification, where the code gives it.
    pub spec_name_override: Option<String>,
    /// The formula that the function is anchored to.
    pub formula_anchor: Option<String>,
    /// The constant that the function is anchored to.
    pub constant_anchor: Option<String>,
    pub function_sig: Option<Rc<FnItem>>,
}

/// A function to verify, as a mathematical value.
#[verifier::ext_equal]
pub struct LockedView {
    pub file_path: Seq<char>,
    pub function_name: Seq<char>,
    pub contracts: Seq<ContractView>,
    pub section: Option<Seq<char>>,
    pub spec_name_override: Option<Seq<char>>,
    pub formula_anchor: Option<Seq<char>>,
    pub constant_anchor: Option<Seq<char>>,
    pub function_sig: Option<Rc<FnItem>>,
}

impl View for FunctionToVerify {
    type V = LockedView;

    open spec fn view(&self) -> LockedView {
        LockedView {
            file_path: self.file_path@,
            function_name: self.function_name@,
            contracts: contract_views(self.contracts@),
            section: patterns::group_view(self.section),
            spec_name_override: patterns::group_view(self.spec_name_override),
            formula_anchor: patterns::group_view(self.formula_anchor),
            constant_anchor: patterns::group_view(self.constant_anchor),
            function_sig: self.function_sig,
        }
    }
}

/// Functions to verify, as mathematical values.
pub open spec fn locked_views(v: Seq<FunctionToVerify>) -> Seq<LockedView> {
    v.map_values(|f: FunctionToVerify| f@)
}

/// A postcondition of a function that others call.
#[derive(Debug)]
pub struct CalleePostcond {
    pub function_name: String,
    pub condition: String,
}

/// What a function is anchored to beside its section.
#[derive(Debug)]
pub enum SecondarySpecAnchor {
    Formula(String),
    Constant(String),
}

/// An anchor as a mathematical value.
pub enum AnchorView {
    Formula(Seq<char>),
    Constant(Seq<char>),
}

impl View for SecondarySpecAnchor {
    type V = AnchorView;

    open spec fn view(&self) -> AnchorView {
        match *self {
            SecondarySpecAnchor::Formula(s) => AnchorView::Formula(s@),
            SecondarySpecAnchor::Constant(s) => AnchorView::Constant(s@),
        }
    }
}

/// An optional anchor as a mathematical value.
pub open spec fn anchor_view(a: Option<SecondarySpecAnchor>) -> Option<AnchorView> {
    match a {
        Some(x) => Some(x@),
        None => None,
    }
}

// ---------------------------------------------------------------------------
// Contracts
// ---------------------------------------------------------------------------
/// Whether a path is the one name `name`.
pub open spec fn ident_is(p: Path, name: Seq<char>) -> bool {
    p.bare && p.segments@.len() == 1 && p.segments@[0]@ == name
}

fn is_ident(p: &Path, name: &str) -> (r: bool)
    ensures
        r == ident_is(*p, name@),
{
    p.bare && p.segments.len() == 1 && same(p.segments[0].as_str(), name)
}

/// The kind of contract that a name stands for.
pub open spec fn name_kind(name: Option<Seq<char>>) -> Option<ContractType> {
    if name == Some("ensures"@) {
        Some(ContractType::Ensures)
    } else if name == Some("requires"@) {
        Some(ContractType::Requires)
    } else if name == Some("axiom"@) {
        Some(ContractType::Axiom)
    } else {
        None
    }
}

fn kind_of_name(name: &Option<String>) -> (r: Option<ContractType>)
    ensures
        r == name_kind(patterns::group_view(*name)),
{
    match name {
        Some(n) => {
            if same(n.as_str(), "ensures") {
                Some(ContractType::Ensures)
            } else if same(n.as_str(), "requires") {
                Some(ContractType::Requires)
            } else if same(n.as_str(), "axiom") {
                Some(ContractType::Axiom)
            } else {
                None
            }
        },
        None => None,
    }
}

/// The contract that an attribute states. A conditional attribute states what the one inside it
/// states. A condition that is not an expression stands as the attribute is written.
pub open spec fn written_contract(a: Attr) -> Option<ContractView> {
    if ident_is(a.path, "cfg_attr"@) {
        match a.inner {
            Some(inner) => match name_kind(patterns::group_view(inner.name)) {
                Some(k) => Some(
                    ContractView {
                        contract_type: k,
                        condition: inner.tokens@,
                        expr: inner.expr,
                        is_spec_derived: false,
                    },
                ),
                None => None,
            },
            None => None,
        }
    } else {
        match contracts::path_kind(a.path) {
            Some(k) => Some(
                match a.arg {
                    Some((s, e)) => ContractView {
                        contract_type: k,
                        condition: s@,
                        expr: Some(e),
                        is_spec_derived: false,
                    },
                    None => ContractView {
                        contract_type: k,
                        condition: a.tokens@,
                        expr: None,
                        is_spec_derived: false,
                    },
                },
            ),
            None => None,
        }
    }
}

/// The contracts that the first `n` attributes state, in order.
pub open spec fn written_contracts(attrs: Seq<Attr>, n: int) -> Seq<ContractView>
    decreases n,
{
    if n <= 0 || n > attrs.len() {
        seq![]
    } else {
        match written_contract(attrs[n - 1]) {
            Some(c) => written_contracts(attrs, n - 1).push(c),
            None => written_contracts(attrs, n - 1),
        }
    }
}

/// A shared expression once more.
pub fn share(e: &Option<Rc<Expr>>) -> (r: Option<Rc<Expr>>)
    ensures
        r == *e,
{
    match e {
        Some(x) => Some(x.clone()),
        None => None,
    }
}

/// A contract once more.
pub fn copy_contract(c: &Contract) -> (r: Contract)
    ensures
        r@ == c@,
{
    Contract {
        contract_type: c.contract_type,
        condition: c.condition.as_str().to_owned(),
        expr: share(&c.expr),
        is_spec_derived: c.is_spec_derived,
    }
}

/// The contract that an attribute states.
pub fn contract_of(a: &Attr) -> (r: Option<Contract>)
    ensures
        match r {
            Some(c) => written_contract(*a) == Some(c@),
            None => written_contract(*a) is None,
        },
{
    if is_ident(&a.path, "cfg_attr") {
        return match &a.inner {
            Some(inner) => match kind_of_name(&inner.name) {
                Some(contract_type) => Some(
                    Contract {
                        contract_type,
                        condition: inner.tokens.as_str().to_owned(),
                        expr: share(&inner.expr),
                        is_spec_derived: false,
                    },
                ),
                None => None,
            },
            None => None,
        };
    }
    match kind_of_path(&a.path) {
        Some(contract_type) => match &a.arg {
            Some(arg) => Some(
                Contract {
                    contract_type,
                    condition: arg.0.as_str().to_owned(),
                    expr: Some(arg.1.clone()),
                    is_spec_derived: false,
                },
            ),
            None => Some(
                Contract {
                    contract_type,
                    condition: a.tokens.as_str().to_owned(),
                    expr: None,
                    is_spec_derived: false,
                },
            ),
        },
        None => None,
    }
}

/// The contracts that attributes state, in order.
pub fn extract_contracts_from_attrs(attrs: &Vec<Attr>) -> (r: Vec<Contract>)
    ensures
        contract_views(r@) == written_contracts(attrs@, attrs@.len() as int),
{
    let mut out: Vec<Contract> = Vec::new();
    let mut i: usize = 0;
    proof {
        assert(contract_views(out@) =~= seq![]);
    }
    while i < attrs.len()
        invariant
            i <= attrs.len(),
            contract_views(out@) == written_contracts(attrs@, i as int),
        decreases attrs.len() - i,
    {
        if let Some(c) = contract_of(&attrs[i]) {
            let ghost had = out@;
            let ghost cv = c@;
            out.push(c);
            proof {
                assert(contract_views(out@) =~= contract_views(had).push(cv));
            }
        }
        i += 1;
    }
    out
}

// ---------------------------------------------------------------------------
// Locks
// ---------------------------------------------------------------------------
/// Whether an attribute locks a function to the specification, by itself or inside a condition.
pub open spec fn locks(a: Attr) -> bool {
    contracts::path_is(a.path, "spec_locked"@) || (ident_is(a.path, "cfg_attr"@) && text::holds(
        a.tokens@,
        "spec_locked"@,
    ))
}

fn is_lock(a: &Attr) -> (r: bool)
    ensures
        r == locks(*a),
{
    is_path(&a.path, "spec_locked") || (is_ident(&a.path, "cfg_attr") && contains(
        a.tokens.as_str(),
        "spec_locked",
    ))
}

/// Whether one of the attributes locks the function to the specification.
pub fn has_spec_locked(attrs: &Vec<Attr>) -> (r: bool)
    ensures
        r == exists|i: int| 0 <= i < attrs@.len() && locks(#[trigger] attrs@[i]),
{
    let mut i: usize = 0;
    while i < attrs.len()
        invariant
            i <= attrs.len(),
            forall|j: int| 0 <= j < i ==> !locks(#[trigger] attrs@[j]),
        decreases attrs.len() - i,
    {
        if is_lock(&attrs[i]) {
            return true;
        }
        i += 1;
    }
    false
}

/// The first text in quotation marks, and what follows it.
pub open spec fn quoted(s: Seq<char>) -> Option<(Seq<char>, Seq<char>)> {
    match text::find(s, "\""@) {
        Some(a) => match text::find(s.skip(a + 1), "\""@) {
            Some(b) => Some((s.subrange(a + 1, a + 1 + b), s.skip(a + b + 2))),
            None => None,
        },
        None => None,
    }
}

fn quoted_text(s: &str) -> (r: Option<(String, String)>)
    ensures
        match r {
            Some((q, rest)) => quoted(s@) == Some((q@, rest@)),
            None => quoted(s@) is None,
        },
{
    proof {
        reveal_strlit("\"");
    }
    let v = to_chars(s);
    match find_str(s, "\"") {
        Some(a) => {
            proof {
                text::lemma_find_from(s@, "\""@, 0);
            }
            let tail = from_range(v.as_slice(), a + 1, v.len());
            proof {
                assert(s@.subrange(a + 1, s@.len() as int) =~= s@.skip(a + 1));
            }
            match find_str(tail.as_str(), "\"") {
                Some(b) => {
                    proof {
                        text::lemma_find_from(tail@, "\""@, 0);
                    }
                    let q = from_range(v.as_slice(), a + 1, a + 1 + b);
                    let rest = from_range(v.as_slice(), a + b + 2, v.len());
                    proof {
                        assert(s@.subrange(a + b + 2, s@.len() as int) =~= s@.skip(a + b + 2));
                    }
                    Some((q, rest))
                },
                None => None,
            }
        },
        None => None,
    }
}

/// The first argument of the lock in an attribute that is written out, and what follows it.
pub open spec fn lock_argument(tokens: Seq<char>) -> Option<(Seq<char>, Seq<char>)> {
    match text::find(tokens, "spec_locked"@) {
        Some(p) => quoted(tokens.skip(p)),
        None => None,
    }
}

fn argument_of_lock(tokens: &str) -> (r: Option<(String, String)>)
    ensures
        match r {
            Some((q, rest)) => lock_argument(tokens@) == Some((q@, rest@)),
            None => lock_argument(tokens@) is None,
        },
{
    match find_str(tokens, "spec_locked") {
        Some(p) => {
            proof {
                text::lemma_find_from(tokens@, "spec_locked"@, 0);
                assert(tokens@.subrange(p as int, tokens@.len() as int) =~= tokens@.skip(p as int));
            }
            let v = to_chars(tokens);
            let tail = from_range(v.as_slice(), p, v.len());
            quoted_text(tail.as_str())
        },
        None => None,
    }
}

/// Whether a name is that of a formula or a constant.
pub open spec fn anchor_name(name: Seq<char>) -> bool {
    text::starts(name, "F_"@) || text::starts(name, "C_"@)
}

fn is_anchor_name(name: &str) -> (r: bool)
    ensures
        r == anchor_name(name@),
{
    starts_with(name, "F_") || starts_with(name, "C_")
}

/// A section without the anchor that is written behind it.
pub open spec fn section_alone(raw: Seq<char>) -> Seq<char> {
    match text::find(raw, "::"@) {
        Some(p) => if anchor_name(raw.skip(p + 2)) {
            raw.take(p)
        } else {
            raw
        },
        None => raw,
    }
}

/// Whether there is an ASCII digit in a text.
pub open spec fn digits_in(s: Seq<char>) -> bool {
    exists|i: int| 0 <= i < s.len() && chars::ascii_digit(#[trigger] s[i])
}

/// The section that an attribute names: the first argument of the lock, where there is a digit in
/// it.
pub open spec fn attr_section(a: Attr) -> Option<Seq<char>> {
    if locks(a) {
        match lock_argument(a.tokens@) {
            Some((raw, _)) => if digits_in(raw) {
                Some(section_alone(raw))
            } else {
                None
            },
            None => None,
        }
    } else {
        None
    }
}

/// The section that the attributes from `i` on name first.
pub open spec fn section_from(attrs: Seq<Attr>, i: int) -> Option<Seq<char>>
    decreases attrs.len() - i,
{
    if i < 0 || i >= attrs.len() {
        None
    } else {
        match attr_section(attrs[i]) {
            Some(s) => Some(s),
            None => section_from(attrs, i + 1),
        }
    }
}

fn has_digit(s: &str) -> (r: bool)
    ensures
        r == digits_in(s@),
{
    let v = to_chars(s);
    let mut i: usize = 0;
    while i < v.len()
        invariant
            i <= v.len(),
            v@ == s@,
            forall|j: int| 0 <= j < i ==> !chars::ascii_digit(#[trigger] s@[j]),
        decreases v.len() - i,
    {
        if is_digit(v[i]) {
            assert(chars::ascii_digit(s@[i as int]));
            return true;
        }
        i += 1;
    }
    false
}

fn drop_anchor(raw: &str) -> (r: String)
    ensures
        r@ == section_alone(raw@),
{
    proof {
        reveal_strlit("::");
    }
    match find_str(raw, "::") {
        Some(p) => {
            proof {
                text::lemma_find_from(raw@, "::"@, 0);
                assert(raw@.subrange(p + 2, raw@.len() as int) =~= raw@.skip(p + 2));
                assert(raw@.subrange(0, p as int) =~= raw@.take(p as int));
            }
            let v = to_chars(raw);
            let rhs = from_range(v.as_slice(), p + 2, v.len());
            if is_anchor_name(rhs.as_str()) {
                from_range(v.as_slice(), 0, p)
            } else {
                raw.to_owned()
            }
        },
        None => raw.to_owned(),
    }
}

fn section_of(a: &Attr) -> (r: Option<String>)
    ensures
        patterns::group_view(r) == attr_section(*a),
{
    if is_lock(a) {
        if let Some((raw, _)) = argument_of_lock(a.tokens.as_str()) {
            if has_digit(raw.as_str()) {
                return Some(drop_anchor(raw.as_str()));
            }
        }
    }
    None
}

/// The section that a function is locked to: that of the first lock that names one.
pub fn extract_section(attrs: &Vec<Attr>) -> (r: Option<String>)
    ensures
        patterns::group_view(r) == section_from(attrs@, 0),
{
    let mut i: usize = 0;
    while i < attrs.len()
        invariant
            i <= attrs.len(),
            section_from(attrs@, 0) == section_from(attrs@, i as int),
        decreases attrs.len() - i,
    {
        if let Some(s) = section_of(&attrs[i]) {
            return Some(s);
        }
        i += 1;
    }
    None
}

/// The name that an attribute gives the function in the specification: the second argument of the
/// lock, where it is a plain name.
pub open spec fn attr_name(a: Attr) -> Option<Seq<char>> {
    if locks(a) {
        match lock_argument(a.tokens@) {
            Some((_, rest)) => match quoted(rest) {
                Some((name, _)) => if !anchor_name(name) && name.len() > 0 && chars::all_in(
                    name,
                    CharClass::Word,
                ) {
                    Some(name)
                } else {
                    None
                },
                None => None,
            },
            None => None,
        }
    } else {
        None
    }
}

/// The name that the attributes from `i` on give first.
pub open spec fn name_from(attrs: Seq<Attr>, i: int) -> Option<Seq<char>>
    decreases attrs.len() - i,
{
    if i < 0 || i >= attrs.len() {
        None
    } else {
        match attr_name(attrs[i]) {
            Some(s) => Some(s),
            None => name_from(attrs, i + 1),
        }
    }
}

fn name_of(a: &Attr) -> (r: Option<String>)
    ensures
        patterns::group_view(r) == attr_name(*a),
{
    if is_lock(a) {
        if let Some((_, rest)) = argument_of_lock(a.tokens.as_str()) {
            if let Some((name, _)) = quoted_text(rest.as_str()) {
                let n = name.as_str();
                if !is_anchor_name(n) && !same(n, "") && all_of(n, CharClass::Word) {
                    proof {
                        reveal_strlit("");
                        assert(name@.len() == 0 ==> name@ =~= ""@);
                    }
                    return Some(name);
                }
                proof {
                    reveal_strlit("");
                }
            }
        }
    }
    None
}

/// The name that the code gives the function in the specification.
pub fn extract_spec_name_override(attrs: &Vec<Attr>) -> (r: Option<String>)
    ensures
        patterns::group_view(r) == name_from(attrs@, 0),
{
    let mut i: usize = 0;
    while i < attrs.len()
        invariant
            i <= attrs.len(),
            name_from(attrs@, 0) == name_from(attrs@, i as int),
        decreases attrs.len() - i,
    {
        if let Some(s) = name_of(&attrs[i]) {
            return Some(s);
        }
        i += 1;
    }
    None
}

// ---------------------------------------------------------------------------
// Anchors
// ---------------------------------------------------------------------------
/// A name with the prefix of a formula or a constant and an ASCII word behind it.
pub open spec fn anchor(id: Seq<char>) -> Option<AnchorView> {
    if text::starts(id, "F_"@) && id.len() > 2 && chars::all_in(id.skip(2), CharClass::AsciiWord) {
        Some(AnchorView::Formula(id))
    } else if text::starts(id, "C_"@) && id.len() > 2 && chars::all_in(
        id.skip(2),
        CharClass::AsciiWord,
    ) {
        Some(AnchorView::Constant(id))
    } else {
        None
    }
}

/// The anchor that a name stands for.
pub fn classify_secondary_anchor(id: &str) -> (r: Option<SecondarySpecAnchor>)
    ensures
        anchor_view(r) == anchor(id@),
{
    proof {
        reveal_strlit("F_");
        reveal_strlit("C_");
    }
    if !is_anchor_name(id) {
        return None;
    }
    let v = to_chars(id);
    let rest = from_range(v.as_slice(), 2, v.len());
    proof {
        assert(id@.subrange(2, id@.len() as int) =~= id@.skip(2));
    }
    if v.len() > 2 && all_of(rest.as_str(), CharClass::AsciiWord) {
        if starts_with(id, "F_") {
            Some(SecondarySpecAnchor::Formula(id.to_owned()))
        } else {
            Some(SecondarySpecAnchor::Constant(id.to_owned()))
        }
    } else {
        None
    }
}

/// The anchor among three names, by their order.
pub open spec fn first_anchor(
    named: Option<Seq<char>>,
    combined: Option<Seq<char>>,
    dual: Option<Seq<char>>,
) -> Option<AnchorView> {
    if named is Some && anchor(named->0) is Some {
        anchor(named->0)
    } else if combined is Some && anchor(combined->0) is Some {
        anchor(combined->0)
    } else if dual is Some {
        anchor(dual->0)
    } else {
        None
    }
}

/// The anchor among three names, by their order.
pub fn choose_anchor(named: &Option<String>, combined: &Option<String>, dual: &Option<String>) -> (r:
    Option<SecondarySpecAnchor>)
    ensures
        anchor_view(r) == first_anchor(
            patterns::group_view(*named),
            patterns::group_view(*combined),
            patterns::group_view(*dual),
        ),
{
    if let Some(id) = named {
        if let Some(a) = classify_secondary_anchor(id.as_str()) {
            return Some(a);
        }
    }
    if let Some(id) = combined {
        if let Some(a) = classify_secondary_anchor(id.as_str()) {
            return Some(a);
        }
    }
    if let Some(id) = dual {
        return classify_secondary_anchor(id.as_str());
    }
    None
}

/// The anchor that an attribute names.
pub open spec fn attr_anchor(a: Attr) -> Option<AnchorView> {
    if locks(a) {
        first_anchor(
            patterns::group_of(NAMED_ANCHOR@, a.tokens@, 1),
            patterns::group_of(COMBINED_ANCHOR@, a.tokens@, 2),
            patterns::group_of(DUAL_ANCHOR@, a.tokens@, 1),
        )
    } else {
        None
    }
}

/// The anchor that the attributes from `i` on name first.
pub open spec fn anchor_from(attrs: Seq<Attr>, i: int) -> Option<AnchorView>
    decreases attrs.len() - i,
{
    if i < 0 || i >= attrs.len() {
        None
    } else {
        match attr_anchor(attrs[i]) {
            Some(s) => Some(s),
            None => anchor_from(attrs, i + 1),
        }
    }
}

fn anchor_of(a: &Attr) -> (r: Option<SecondarySpecAnchor>)
    ensures
        anchor_view(r) == attr_anchor(*a),
{
    if !is_lock(a) {
        return None;
    }
    let t = a.tokens.as_str();
    let named = capture_group(NAMED_ANCHOR, t, 1);
    let combined = capture_group(COMBINED_ANCHOR, t, 2);
    let dual = capture_group(DUAL_ANCHOR, t, 1);
    choose_anchor(&named, &combined, &dual)
}

/// The formula or constant that a function is anchored to: that of the first lock that names one.
pub fn extract_secondary_spec_anchor(attrs: &Vec<Attr>) -> (r: Option<SecondarySpecAnchor>)
    ensures
        anchor_view(r) == anchor_from(attrs@, 0),
{
    let mut i: usize = 0;
    while i < attrs.len()
        invariant
            i <= attrs.len(),
            anchor_from(attrs@, 0) == anchor_from(attrs@, i as int),
        decreases attrs.len() - i,
    {
        if let Some(a) = anchor_of(&attrs[i]) {
            return Some(a);
        }
        i += 1;
    }
    None
}

/// The formula of an anchor.
pub open spec fn formula_in(a: Option<AnchorView>) -> Option<Seq<char>> {
    match a {
        Some(AnchorView::Formula(s)) => Some(s),
        _ => None,
    }
}

/// The constant of an anchor.
pub open spec fn constant_in(a: Option<AnchorView>) -> Option<Seq<char>> {
    match a {
        Some(AnchorView::Constant(s)) => Some(s),
        _ => None,
    }
}

/// The formula that a function is anchored to.
pub fn extract_formula_anchor(attrs: &Vec<Attr>) -> (r: Option<String>)
    ensures
        patterns::group_view(r) == formula_in(anchor_from(attrs@, 0)),
{
    match extract_secondary_spec_anchor(attrs) {
        Some(SecondarySpecAnchor::Formula(id)) => Some(id),
        _ => None,
    }
}

/// The constant that a function is anchored to.
pub fn extract_constant_anchor(attrs: &Vec<Attr>) -> (r: Option<String>)
    ensures
        patterns::group_view(r) == constant_in(anchor_from(attrs@, 0)),
{
    match extract_secondary_spec_anchor(attrs) {
        Some(SecondarySpecAnchor::Constant(id)) => Some(id),
        _ => None,
    }
}

/// A function is not anchored to a formula and to a constant.
pub proof fn law_one_anchor(attrs: Seq<Attr>)
    ensures
        formula_in(anchor_from(attrs, 0)) is None || constant_in(anchor_from(attrs, 0)) is None,
{
}

/// The section that is kept does not end in an anchor: of `§::F_x` and `§::C_x` the part before the
/// first `::` stays.
pub proof fn law_section_keeps_front(raw: Seq<char>)
    ensures
        section_alone(raw) == raw || (text::find(raw, "::"@) matches Some(p) && section_alone(raw)
            == raw.take(p) && anchor_name(raw.skip(p + 2))),
{
}

// ---------------------------------------------------------------------------
// Functions of a file
// ---------------------------------------------------------------------------
/// A function as it stands in a file.
#[derive(Debug)]
pub struct SourceFn {
    pub name: String,
    pub attrs: Vec<Attr>,
    pub item: Rc<FnItem>,
}

/// Whether `f` is what `src` in the file `path` is to be verified as.
pub open spec fn made_of(f: FunctionToVerify, path: Seq<char>, src: SourceFn) -> bool {
    &&& f.file_path@ == path
    &&& f.function_name@ == src.name@
    &&& contract_views(f.contracts@) == written_contracts(src.attrs@, src.attrs@.len() as int)
    &&& patterns::group_view(f.section) == section_from(src.attrs@, 0)
    &&& patterns::group_view(f.spec_name_override) == name_from(src.attrs@, 0)
    &&& patterns::group_view(f.formula_anchor) == formula_in(anchor_from(src.attrs@, 0))
    &&& patterns::group_view(f.constant_anchor) == constant_in(anchor_from(src.attrs@, 0))
    &&& f.function_sig == Some(src.item)
}

/// Whether an attribute of `src` locks it.
pub open spec fn is_locked(src: SourceFn) -> bool {
    exists|i: int| 0 <= i < src.attrs@.len() && locks(#[trigger] src.attrs@[i])
}

/// The places of the locked functions among the first `n`.
pub open spec fn locked_places(fns: Seq<SourceFn>, n: int) -> Seq<int>
    decreases n,
{
    if n <= 0 || n > fns.len() {
        seq![]
    } else if is_locked(fns[n - 1]) {
        locked_places(fns, n - 1).push(n - 1)
    } else {
        locked_places(fns, n - 1)
    }
}

/// What a function of a file is to be verified as.
pub fn make_function_to_verify(file_path: &str, src: &SourceFn) -> (r: FunctionToVerify)
    ensures
        made_of(r, file_path@, *src),
{
    FunctionToVerify {
        file_path: file_path.to_owned(),
        function_name: src.name.as_str().to_owned(),
        contracts: extract_contracts_from_attrs(&src.attrs),
        section: extract_section(&src.attrs),
        spec_name_override: extract_spec_name_override(&src.attrs),
        formula_anchor: extract_formula_anchor(&src.attrs),
        constant_anchor: extract_constant_anchor(&src.attrs),
        function_sig: Some(src.item.clone()),
    }
}

/// Whether `v` are the locked ones of `fns` in the file `path`, in order.
pub open spec fn taken_from(v: Seq<FunctionToVerify>, path: Seq<char>, fns: Seq<SourceFn>) -> bool {
    let places = locked_places(fns, fns.len() as int);
    &&& v.len() == places.len()
    &&& forall|i: int| 0 <= i < v.len() ==> made_of(#[trigger] v[i], path, fns[places[i]])
}

/// The functions of a file that are locked to the specification, in order.
pub fn take_locked(file_path: &str, fns: &Vec<SourceFn>) -> (r: Vec<FunctionToVerify>)
    ensures
        taken_from(r@, file_path@, fns@),
{
    let mut out: Vec<FunctionToVerify> = Vec::new();
    let mut i: usize = 0;
    while i < fns.len()
        invariant
            i <= fns.len(),
            ({
                let places = locked_places(fns@, i as int);
                &&& out@.len() == places.len()
                &&& forall|k: int|
                    0 <= k < out@.len() ==> made_of(#[trigger] out@[k], file_path@, fns@[places[k]])
            }),
        decreases fns.len() - i,
    {
        if has_spec_locked(&fns[i].attrs) {
            out.push(make_function_to_verify(file_path, &fns[i]));
        }
        i += 1;
    }
    out
}

/// The functions that stand in a file with the given text and are locked to the specification, in
/// order.
pub fn parse_file_for_functions(file_path: &str, content: &str) -> (r: Result<
    Vec<FunctionToVerify>,
    String,
>)
    ensures
        match (r, rust_syntax::source_read(content@)) {
            (Ok(v), Ok(items)) => exists|fns: Seq<SourceFn>|
                #![trigger tree::source_views(fns)]
                tree::source_views(fns) == source::functions_in(items, items.len() as int)
                    && taken_from(v@, file_path@, fns),
            (Err(m), Err(e)) => m@ == "Failed to parse "@ + file_path@ + ": "@ + e,
            _ => false,
        },
{
    match read_source(content) {
        Ok(fns) => {
            let v = take_locked(file_path, &fns);
            proof {
                assert(tree::source_views(fns@) == tree::source_views(fns@));
            }
            Ok(v)
        },
        Err(e) => {
            let mut m = "Failed to parse ".to_owned();
            m.append(file_path);
            m.append(": ");
            m.append(e.as_str());
            Err(m)
        },
    }
}

/// Whether a path lies under a directory that is not looked at.
pub open spec fn passed_over(path: Seq<char>) -> bool {
    text::holds(path, "/target/"@) || text::holds(path, "/.git/"@) || text::holds(path, "/.cargo/"@)
}

/// Whether a path lies under a directory that is not looked at.
pub fn is_passed_over(path: &str) -> (r: bool)
    ensures
        r == passed_over(path@),
{
    contains(path, "/target/") || contains(path, "/.git/") || contains(path, "/.cargo/")
}

/// What a search for functions gives: the functions, unless there are none and a file failed.
pub fn discovered(functions: Vec<FunctionToVerify>, errors: &Vec<String>) -> (r: Result<
    Vec<FunctionToVerify>,
    String,
>)
    ensures
        match r {
            Ok(v) => v == functions && (functions@.len() > 0 || errors@.len() == 0),
            Err(m) => functions@.len() == 0 && errors@.len() > 0 && m@
                == "Failed to discover functions:\n"@ + text::joined(text::views(errors@), "\n"@),
        },
{
    if functions.len() > 0 || errors.len() == 0 {
        Ok(functions)
    } else {
        Err(
            cat("Failed to discover functions:\n", crate::text::join(errors.as_slice(), "\n").as_str()),
        )
    }
}

// ---------------------------------------------------------------------------
// Copies
// ---------------------------------------------------------------------------
/// An optional text once more.
pub fn copy_text(s: &Option<String>) -> (r: Option<String>)
    ensures
        patterns::group_view(r) == patterns::group_view(*s),
{
    match s {
        Some(x) => Some(x.as_str().to_owned()),
        None => None,
    }
}

/// Contracts once more.
pub fn copy_contracts(cs: &Vec<Contract>) -> (r: Vec<Contract>)
    ensures
        contract_views(r@) == contract_views(cs@),
{
    let mut out: Vec<Contract> = Vec::new();
    let mut i: usize = 0;
    while i < cs.len()
        invariant
            i <= cs.len(),
            out@.len() == i,
            forall|k: int| 0 <= k < i ==> (#[trigger] out@[k])@ == cs@[k]@,
        decreases cs.len() - i,
    {
        out.push(copy_contract(&cs[i]));
        i += 1;
    }
    proof {
        assert(contract_views(out@) =~= contract_views(cs@));
    }
    out
}

/// A function to verify once more.
pub fn copy_function(f: &FunctionToVerify) -> (r: FunctionToVerify)
    ensures
        r@ == f@,
{
    FunctionToVerify {
        file_path: f.file_path.as_str().to_owned(),
        function_name: f.function_name.as_str().to_owned(),
        contracts: copy_contracts(&f.contracts),
        section: copy_text(&f.section),
        spec_name_override: copy_text(&f.spec_name_override),
        formula_anchor: copy_text(&f.formula_anchor),
        constant_anchor: copy_text(&f.constant_anchor),
        function_sig: match &f.function_sig {
            Some(s) => Some(s.clone()),
            None => None,
        },
    }
}

/// The first text in quotation marks is what stands between the first two of them.
pub proof fn law_quoted_text_is_read(front: Seq<char>, q: Seq<char>, rest: Seq<char>)
    requires
        forall|i: int| 0 <= i < front.len() ==> front[i] != '"',
        forall|i: int| 0 <= i < q.len() ==> q[i] != '"',
    ensures
        quoted(front + "\""@ + (q + "\""@ + rest)) == Some((q, rest)),
{
    reveal_strlit("\"");
    let mark = "\""@;
    let s = front + mark + (q + mark + rest);
    text::lemma_find_behind(front, mark, q + mark + rest);
    text::lemma_find_behind(q, mark, rest);
    let a = front.len() as int;
    let b = q.len() as int;
    assert(s.subrange(a + 1, a + 1 + b) =~= q);
    assert(s.skip(a + b + 2) =~= rest);
}

/// A lock on a section and a name is read as that section and that name.
pub proof fn law_lock_is_read(
    a: Attr,
    gap: Seq<char>,
    section: Seq<char>,
    between: Seq<char>,
    name: Seq<char>,
    rest: Seq<char>,
    k: int,
)
    requires
        locks(a),
        a.tokens@ == "spec_locked"@ + (gap + "\""@ + (section + "\""@ + (between + "\""@ + (name + "\""@
            + rest)))),
        forall|i: int| 0 <= i < gap.len() ==> gap[i] != '"',
        forall|i: int| 0 <= i < section.len() ==> section[i] != '"' && section[i] != ':',
        forall|i: int| 0 <= i < between.len() ==> between[i] != '"',
        forall|i: int| 0 <= i < name.len() ==> name[i] != '"',
        0 <= k < section.len() && chars::ascii_digit(section[k]),
        name.len() > 0 && chars::all_in(name, CharClass::Word),
        !text::starts(name, "F_"@) && !text::starts(name, "C_"@),
    ensures
        attr_section(a) == Some(section),
        attr_name(a) == Some(name),
{
    reveal_strlit("spec_locked");
    reveal_strlit("::");
    let mark = "\""@;
    let third = between + mark + (name + mark + rest);
    let second = gap + mark + (section + mark + third);
    text::lemma_find_behind(seq![], "spec_locked"@, second);
    assert(seq![] + "spec_locked"@ + second =~= a.tokens@);
    assert(a.tokens@.skip(0) =~= a.tokens@);
    let front = "spec_locked"@ + gap;
    assert forall|i: int| 0 <= i < front.len() implies front[i] != '"' by {
        if i >= "spec_locked"@.len() {
            assert(front[i] == gap[i - "spec_locked"@.len()]);
        }
    }
    assert(a.tokens@ =~= front + mark + (section + mark + third));
    law_quoted_text_is_read(front, section, third);
    law_quoted_text_is_read(between, name, rest);
    assert(digits_in(section));
    text::lemma_lacks(section, "::"@, 0);
    text::lemma_find_has(section, "::"@);
}

/// The anchor behind a section is cut off, and a name that is none stays.
pub proof fn law_anchor_is_cut_off(section: Seq<char>, id: Seq<char>)
    requires
        forall|i: int| 0 <= i < section.len() ==> section[i] != ':',
    ensures
        section_alone(section + "::"@ + id) == if text::starts(id, "F_"@) || text::starts(id, "C_"@) {
            section
        } else {
            section + "::"@ + id
        },
{
    reveal_strlit("::");
    text::lemma_find_behind(section, "::"@, id);
}

/// A word with the prefix of formulas is a formula, one with the prefix of constants is a
/// constant, and a prefix alone is neither.
pub proof fn law_prefix_tells_the_anchor(w: Seq<char>)
    ensures
        w.len() > 0 && chars::all_in(w, CharClass::AsciiWord) ==> anchor("F_"@ + w) == Some(
            AnchorView::Formula("F_"@ + w),
        ) && anchor("C_"@ + w) == Some(AnchorView::Constant("C_"@ + w)),
        anchor("F_"@) is None,
        anchor("C_"@) is None,
        !text::starts(w, "F_"@) && !text::starts(w, "C_"@) ==> anchor(w) is None,
{
    reveal_strlit("F_");
    reveal_strlit("C_");
    assert(("F_"@ + w).take(2) =~= "F_"@);
    assert(("C_"@ + w).take(2) =~= "C_"@);
    assert(("F_"@ + w).skip(2) =~= w);
    assert(("C_"@ + w).skip(2) =~= w);
    if text::starts("C_"@ + w, "F_"@) {
        assert(("C_"@ + w).take(2)[0] == 'C');
    }
}

} // verus!
