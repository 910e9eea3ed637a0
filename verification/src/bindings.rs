//! The bindings of functions of a specification to paths of the code, in TOML.
use vstd::prelude::*;
use crate::patterns;

verus! {

/// A value of a TOML document.
#[verifier::external_type_specification]
#[verifier::external_body]
pub struct ExTomlValue(toml::Value);

/// What a value of a TOML document is.
pub enum TomlForm {
    Text(Seq<char>),
    Table(Map<Seq<char>, TomlForm>),
    Other,
}

/// What a value holds.
pub uninterp spec fn toml_content(v: toml::Value) -> TomlForm;

/// What a document holds, or the message of the error.
pub uninterp spec fn toml_read(s: Seq<char>) -> Result<TomlForm, Seq<char>>;

/// The value of a name, where there is one.
pub open spec fn entry_of(t: TomlForm, key: Seq<char>) -> Option<TomlForm> {
    match t {
        TomlForm::Table(m) => if m.contains_key(key) {
            Some(m[key])
        } else {
            None
        },
        _ => None,
    }
}

/// `toml::from_str`: what a document holds, or the message of the error, depends on its text alone.
#[verifier::external_body]
fn read_toml(s: &str) -> (r: Result<toml::Value, String>)
    ensures
        match r {
            Ok(v) => toml_read(s@) == Ok::<TomlForm, Seq<char>>(toml_content(v)),
            Err(e) => toml_read(s@) == Err::<TomlForm, Seq<char>>(e@),
        },
{
    toml::from_str(s).map_err(|e: toml::de::Error| e.to_string())
}

/// `toml::Value::get` with a name: the value of the name in a table, and nothing in any other value.
#[verifier::external_body]
fn entry<'a>(v: &'a toml::Value, key: &str) -> (r: Option<&'a toml::Value>)
    ensures
        match r {
            Some(x) => entry_of(toml_content(*v), key@) == Some(toml_content(*x)),
            None => entry_of(toml_content(*v), key@) is None,
        },
{
    v.get(key)
}

/// `toml::Value::as_str`: the text of a string, and nothing of any other value.
#[verifier::external_body]
fn toml_text(v: &toml::Value) -> (r: Option<&str>)
    ensures
        match r {
            Some(s) => toml_content(*v) == TomlForm::Text(s@),
            None => !(toml_content(*v) is Text),
        },
{
    v.as_str()
}

/// The path that a function is bound to, by a document.
pub open spec fn bound_path(t: TomlForm, name: Seq<char>) -> Option<Seq<char>> {
    match entry_of(t, "blvm_consensus"@) {
        Some(a) => match entry_of(a, "serialization"@) {
            Some(b) => match entry_of(b, name) {
                Some(TomlForm::Text(s)) => Some(s),
                _ => None,
            },
            None => None,
        },
        None => None,
    }
}

/// The bindings of functions to paths.
#[derive(Debug)]
pub struct Bindings {
    pub root: toml::Value,
}

impl View for Bindings {
    type V = TomlForm;

    open spec fn view(&self) -> TomlForm {
        toml_content(self.root)
    }
}

/// Reads bindings.
pub fn read_bindings(content: &str) -> (r: Result<Bindings, String>)
    ensures
        match r {
            Ok(b) => toml_read(content@) == Ok::<TomlForm, Seq<char>>(b@),
            Err(e) => toml_read(content@) == Err::<TomlForm, Seq<char>>(e@),
        },
{
    match read_toml(content) {
        Ok(root) => Ok(Bindings { root }),
        Err(e) => Err(e),
    }
}

/// The path that a function is bound to.
pub fn get_binding(bindings: &Bindings, func_name: &str) -> (r: Option<String>)
    ensures
        patterns::group_view(r) == bound_path(bindings@, func_name@),
{
    let a = match entry(&bindings.root, "blvm_consensus") {
        Some(v) => v,
        None => {
            return None;
        },
    };
    let b = match entry(a, "serialization") {
        Some(v) => v,
        None => {
            return None;
        },
    };
    match entry(b, func_name) {
        Some(v) => match toml_text(v) {
            Some(s) => Some(s.to_owned()),
            None => None,
        },
        None => None,
    }
}

} // verus!
