//! What is read out of a specification: sections, functions, properties, theorems, constants and
//! formulas.
use vstd::prelude::*;
use crate::patterns;
use crate::text;

verus! {

/// The kinds of properties.
#[derive(Debug, Clone, Copy, PartialEq, Eq, Structural)]
pub enum PropertyType {
    /// A precondition.
    Requires,
    /// A postcondition.
    Ensures,
    /// An invariant.
    Invariant,
}

/// The kinds of contracts that a specification gives.
#[derive(Debug, Clone, Copy, PartialEq, Eq, Structural)]
pub enum ContractType {
    Requires,
    Ensures,
    Property,
    EdgeCase,
}

/// The kinds of properties that stand by themselves.
#[derive(Debug, Clone, Copy, PartialEq, Eq, Structural)]
pub enum StandalonePropertyType {
    /// One function undoes another.
    RoundTrip,
    /// A second application changes nothing.
    Idempotent,
    /// Values come in an order.
    Order,
    Other,
}

/// A property of a function.
#[derive(Debug)]
pub struct Property {
    pub name: String,
    pub statement: String,
    pub property_type: PropertyType,
}

/// A property as a mathematical value.
#[verifier::ext_equal]
pub struct PropertyView {
    pub name: Seq<char>,
    pub statement: Seq<char>,
    pub property_type: PropertyType,
}

impl View for Property {
    type V = PropertyView;

    open spec fn view(&self) -> PropertyView {
        PropertyView {
            name: self.name@,
            statement: self.statement@,
            property_type: self.property_type,
        }
    }
}

/// Properties as mathematical values.
pub open spec fn property_views(v: Seq<Property>) -> Seq<PropertyView> {
    v.map_values(|p: Property| p@)
}

/// A theorem on a function.
#[derive(Debug)]
pub struct Theorem {
    pub number: String,
    pub name: String,
    pub statement: String,
    /// How it is proved, where the specification says so.
    pub proof_reference: Option<String>,
}

/// A theorem as a mathematical value.
#[verifier::ext_equal]
pub struct TheoremView {
    pub number: Seq<char>,
    pub name: Seq<char>,
    pub statement: Seq<char>,
    pub proof_reference: Option<Seq<char>>,
}

impl View for Theorem {
    type V = TheoremView;

    open spec fn view(&self) -> TheoremView {
        TheoremView {
            number: self.number@,
            name: self.name@,
            statement: self.statement@,
            proof_reference: patterns::group_view(self.proof_reference),
        }
    }
}

/// Theorems as mathematical values.
pub open spec fn theorem_views(v: Seq<Theorem>) -> Seq<TheoremView> {
    v.map_values(|t: Theorem| t@)
}

/// A contract that a specification gives.
#[derive(Debug)]
pub struct Contract {
    pub contract_type: ContractType,
    /// The condition, near to Rust.
    pub condition: String,
    pub comment: Option<String>,
}

/// A contract of a specification as a mathematical value.
#[verifier::ext_equal]
pub struct ContractView {
    pub contract_type: ContractType,
    pub condition: Seq<char>,
    pub comment: Option<Seq<char>>,
}

impl View for Contract {
    type V = ContractView;

    open spec fn view(&self) -> ContractView {
        ContractView {
            contract_type: self.contract_type,
            condition: self.condition@,
            comment: patterns::group_view(self.comment),
        }
    }
}

/// Contracts as mathematical values.
pub open spec fn contract_views(v: Seq<Contract>) -> Seq<ContractView> {
    v.map_values(|c: Contract| c@)
}

/// A property that stands by itself.
#[derive(Debug)]
pub struct StandaloneProperty {
    pub name: String,
    pub section_id: String,
    /// The formula as it is written.
    pub formula_raw: String,
    pub property_type: StandalonePropertyType,
    /// Of a round trip the function that is applied last.
    pub outer_func: Option<String>,
    /// Of a round trip the function that is applied first.
    pub inner_func: Option<String>,
    /// What the property is restricted to.
    pub constraint: Option<String>,
}

/// A property that stands by itself, as a mathematical value.
#[verifier::ext_equal]
pub struct StandaloneView {
    pub name: Seq<char>,
    pub section_id: Seq<char>,
    pub formula_raw: Seq<char>,
    pub property_type: StandalonePropertyType,
    pub outer_func: Option<Seq<char>>,
    pub inner_func: Option<Seq<char>>,
    pub constraint: Option<Seq<char>>,
}

impl View for StandaloneProperty {
    type V = StandaloneView;

    open spec fn view(&self) -> StandaloneView {
        StandaloneView {
            name: self.name@,
            section_id: self.section_id@,
            formula_raw: self.formula_raw@,
            property_type: self.property_type,
            outer_func: patterns::group_view(self.outer_func),
            inner_func: patterns::group_view(self.inner_func),
            constraint: patterns::group_view(self.constraint),
        }
    }
}

/// Properties that stand by themselves, as mathematical values.
pub open spec fn standalone_views(v: Seq<StandaloneProperty>) -> Seq<StandaloneView> {
    v.map_values(|p: StandaloneProperty| p@)
}

/// A constant of a specification.
#[derive(Debug)]
pub struct ExtractedConstant {
    pub name: String,
    pub section: String,
    /// The value as it is written.
    pub value: String,
    pub rust_type: String,
    /// The value as a Rust expression.
    pub rust_expr: String,
    pub description: String,
}

/// A constant as a mathematical value.
#[verifier::ext_equal]
pub struct ConstantView {
    pub name: Seq<char>,
    pub section: Seq<char>,
    pub value: Seq<char>,
    pub rust_type: Seq<char>,
    pub rust_expr: Seq<char>,
    pub description: Seq<char>,
}

impl View for ExtractedConstant {
    type V = ConstantView;

    open spec fn view(&self) -> ConstantView {
        ConstantView {
            name: self.name@,
            section: self.section@,
            value: self.value@,
            rust_type: self.rust_type@,
            rust_expr: self.rust_expr@,
            description: self.description@,
        }
    }
}

/// Constants as mathematical values.
pub open spec fn constant_views(v: Seq<ExtractedConstant>) -> Seq<ConstantView> {
    v.map_values(|c: ExtractedConstant| c@)
}

/// A formula of a specification with a name of its own.
#[derive(Debug)]
pub struct FormulaSpec {
    pub id: String,
    pub section: String,
    /// What stands between the dollar signs.
    pub latex_body: String,
    /// The block as it is written.
    pub raw_markdown: String,
    /// The formulas that it builds on.
    pub depends_on: Vec<String>,
}

/// A formula as a mathematical value.
#[verifier::ext_equal]
pub struct FormulaView {
    pub id: Seq<char>,
    pub section: Seq<char>,
    pub latex_body: Seq<char>,
    pub raw_markdown: Seq<char>,
    pub depends_on: Seq<Seq<char>>,
}

impl View for FormulaSpec {
    type V = FormulaView;

    open spec fn view(&self) -> FormulaView {
        FormulaView {
            id: self.id@,
            section: self.section@,
            latex_body: self.latex_body@,
            raw_markdown: self.raw_markdown@,
            depends_on: text::views(self.depends_on@),
        }
    }
}

/// Formulas as mathematical values.
pub open spec fn formula_views(v: Seq<FormulaSpec>) -> Seq<FormulaView> {
    v.map_values(|f: FormulaSpec| f@)
}

/// A function of a specification.
#[derive(Debug)]
pub struct FunctionSpec {
    pub name: String,
    pub section: String,
    pub signature: Option<String>,
    pub properties: Vec<Property>,
    pub theorems: Vec<Theorem>,
    pub contracts: Vec<Contract>,
    pub content: String,
    /// The conditions of the contracts.
    pub conditions: Vec<String>,
    pub formula: Option<String>,
    pub description: Option<String>,
}

/// A function of a specification as a mathematical value.
#[verifier::ext_equal]
pub struct FunctionView {
    pub name: Seq<char>,
    pub section: Seq<char>,
    pub signature: Option<Seq<char>>,
    pub properties: Seq<PropertyView>,
    pub theorems: Seq<TheoremView>,
    pub contracts: Seq<ContractView>,
    pub content: Seq<char>,
    pub conditions: Seq<Seq<char>>,
    pub formula: Option<Seq<char>>,
    pub description: Option<Seq<char>>,
}

impl View for FunctionSpec {
    type V = FunctionView;

    open spec fn view(&self) -> FunctionView {
        FunctionView {
            name: self.name@,
            section: self.section@,
            signature: patterns::group_view(self.signature),
            properties: property_views(self.properties@),
            theorems: theorem_views(self.theorems@),
            contracts: contract_views(self.contracts@),
            content: self.content@,
            conditions: text::views(self.conditions@),
            formula: patterns::group_view(self.formula),
            description: patterns::group_view(self.description),
        }
    }
}

/// Functions of a specification as mathematical values.
pub open spec fn function_views(v: Seq<FunctionSpec>) -> Seq<FunctionView> {
    v.map_values(|f: FunctionSpec| f@)
}

/// A section of a specification.
#[derive(Debug)]
pub struct SpecSection {
    pub id: String,
    pub title: String,
    pub functions: Vec<FunctionSpec>,
    pub theorems: Vec<Theorem>,
    pub constants: Vec<ExtractedConstant>,
    pub standalone_properties: Vec<StandaloneProperty>,
    pub formulas: Vec<FormulaSpec>,
    /// The section as it is written.
    pub content: String,
}

/// A section as a mathematical value.
#[verifier::ext_equal]
pub struct SectionView {
    pub id: Seq<char>,
    pub title: Seq<char>,
    pub functions: Seq<FunctionView>,
    pub theorems: Seq<TheoremView>,
    pub constants: Seq<ConstantView>,
    pub standalone_properties: Seq<StandaloneView>,
    pub formulas: Seq<FormulaView>,
    pub content: Seq<char>,
}

impl View for SpecSection {
    type V = SectionView;

    open spec fn view(&self) -> SectionView {
        SectionView {
            id: self.id@,
            title: self.title@,
            functions: function_views(self.functions@),
            theorems: theorem_views(self.theorems@),
            constants: constant_views(self.constants@),
            standalone_properties: standalone_views(self.standalone_properties@),
            formulas: formula_views(self.formulas@),
            content: self.content@,
        }
    }
}

/// Sections as mathematical values.
pub open spec fn section_views(v: Seq<SpecSection>) -> Seq<SectionView> {
    v.map_values(|s: SpecSection| s@)
}

} // verus!
