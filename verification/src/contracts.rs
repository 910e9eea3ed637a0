//! Contracts that are written as attributes of a function.
use std::rc::Rc;
use vstd::prelude::*;
use crate::ast::{Expr, Path};
use crate::text::same;

verus! {

/// An attribute: what the rules read of it.
#[derive(Debug)]
pub struct Attr {
    pub path: Path,
    /// The attribute written out.
    pub tokens: String,
    /// Its arguments, where they are one expression: the text and the expression.
    pub arg: Option<(String, Rc<Expr>)>,
    /// Of a conditional attribute the one that it stands for, where that has arguments.
    pub inner: Option<InnerAttr>,
}

/// The attribute that a conditional one stands for.
#[derive(Debug)]
pub struct InnerAttr {
    /// The last name of its path.
    pub name: Option<String>,
    /// Its arguments written out.
    pub tokens: String,
    /// Its arguments, where they are one expression.
    pub expr: Option<Rc<Expr>>,
}

/// A precondition, a postcondition or a trusted statement.
#[derive(Debug)]
pub struct Contract {
    pub contract_type: ContractType,
    /// The condition.
    pub condition: Rc<Expr>,
    /// A remark.
    pub comment: Option<String>,
}

/// The kinds of contracts.
#[derive(Debug, Clone, Copy, PartialEq, Eq, Structural)]
pub enum ContractType {
    /// A precondition.
    Requires,
    /// A postcondition.
    Ensures,
    /// A statement that the solver is told, and that is not proved from the body.
    Axiom,
}

/// Whether a path is `name`, or `blvm_spec_lock::name`.
pub open spec fn path_is(p: Path, name: Seq<char>) -> bool {
    ||| p.bare && p.segments@.len() == 1 && p.segments@[0]@ == name
    ||| p.segments@.len() == 2 && p.segments@[0]@ == "blvm_spec_lock"@ && p.segments@[1]@ == name
}

/// The kind of contract that a path names.
pub open spec fn path_kind(p: Path) -> Option<ContractType> {
    if path_is(p, "requires"@) {
        Some(ContractType::Requires)
    } else if path_is(p, "ensures"@) {
        Some(ContractType::Ensures)
    } else if path_is(p, "axiom"@) {
        Some(ContractType::Axiom)
    } else {
        None
    }
}

/// Whether a path is `name`, or `blvm_spec_lock::name`.
pub fn is_path(p: &Path, name: &str) -> (r: bool)
    ensures
        r == path_is(*p, name@),
{
    let n: usize = p.segments.len();
    (p.bare && n == 1 && same(p.segments[0].as_str(), name)) || (n == 2 && same(
        p.segments[0].as_str(),
        "blvm_spec_lock",
    ) && same(p.segments[1].as_str(), name))
}

/// The kind of contract that a path names.
pub fn kind_of_path(p: &Path) -> (r: Option<ContractType>)
    ensures
        r == path_kind(*p),
{
    if is_path(p, "requires") {
        Some(ContractType::Requires)
    } else if is_path(p, "ensures") {
        Some(ContractType::Ensures)
    } else if is_path(p, "axiom") {
        Some(ContractType::Axiom)
    } else {
        None
    }
}

/// The contract that an attribute states, as its kind and condition: the path names a kind, and the
/// arguments are one expression.
pub open spec fn stated(a: Attr) -> Option<(ContractType, Rc<Expr>)> {
    match (path_kind(a.path), a.arg) {
        (Some(k), Some((_, e))) => Some((k, e)),
        _ => None,
    }
}

/// The contracts that the first `n` attributes state, in order.
pub open spec fn all_stated(attrs: Seq<Attr>, n: int) -> Seq<(ContractType, Rc<Expr>)>
    decreases n,
{
    if n <= 0 || n > attrs.len() {
        seq![]
    } else {
        match stated(attrs[n - 1]) {
            Some(c) => all_stated(attrs, n - 1).push(c),
            None => all_stated(attrs, n - 1),
        }
    }
}

/// The kind and the condition of each contract.
pub open spec fn contract_views(v: Seq<Contract>) -> Seq<(ContractType, Rc<Expr>)> {
    v.map_values(|c: Contract| (c.contract_type, c.condition))
}

/// The contract that an attribute states.
pub fn parse_contract_attribute(a: &Attr) -> (r: Option<Contract>)
    ensures
        match r {
            Some(c) => stated(*a) == Some((c.contract_type, c.condition)) && c.comment is None,
            None => stated(*a) is None,
        },
{
    match (kind_of_path(&a.path), &a.arg) {
        (Some(contract_type), Some(arg)) => Some(
            Contract { contract_type, condition: arg.1.clone(), comment: None },
        ),
        _ => None,
    }
}

/// The contracts that the attributes of a function state, in order.
pub fn extract_contracts(attrs: &[Attr]) -> (r: Vec<Contract>)
    ensures
        contract_views(r@) == all_stated(attrs@, attrs@.len() as int),
        forall|i: int| 0 <= i < r@.len() ==> (#[trigger] r@[i]).comment is None,
{
    let mut out: Vec<Contract> = Vec::new();
    let mut i: usize = 0;
    proof {
        assert(contract_views(out@) =~= seq![]);
    }
    while i < attrs.len()
        invariant
            i <= attrs.len(),
            contract_views(out@) == all_stated(attrs@, i as int),
            forall|j: int| 0 <= j < out@.len() ==> (#[trigger] out@[j]).comment is None,
        decreases attrs.len() - i,
    {
        if let Some(c) = parse_contract_attribute(&attrs[i]) {
            let ghost had = out@;
            let ghost cv = (c.contract_type, c.condition);
            out.push(c);
            proof {
                assert(contract_views(out@) =~= contract_views(had).push(cv));
            }
        }
        i += 1;
    }
    out
}

/// A path names at most one kind of contract: the three names are different.
pub proof fn law_kinds_are_exclusive(p: Path)
    ensures
        !(path_is(p, "requires"@) && path_is(p, "ensures"@)),
        !(path_is(p, "requires"@) && path_is(p, "axiom"@)),
        !(path_is(p, "ensures"@) && path_is(p, "axiom"@)),
{
    reveal_strlit("requires");
    reveal_strlit("ensures");
    reveal_strlit("axiom");
    assert("requires"@.len() != "ensures"@.len());
    assert("requires"@.len() != "axiom"@.len());
    assert("ensures"@.len() != "axiom"@.len());
}

} // verus!
