//! Reports: lists of things, each written as text or as a JSON value.
use vstd::prelude::*;
use crate::json;
use crate::json::{list, JsonForm};
use crate::text;
use crate::text::count_text;

verus! {

/// What is written of a thing in a report of kind `K`.
pub trait Printed<K>: Sized {
    spec fn printed(self) -> Seq<char>;

    fn print(&self) -> (r: String)
        ensures
            r@ == self.printed(),
    ;
}

/// What is written of the first `n` things, one behind the other.
pub open spec fn all_printed<K, T: Printed<K>>(v: Seq<T>, n: int) -> Seq<char>
    decreases n,
{
    if n <= 0 || n > v.len() {
        ""@
    } else {
        all_printed::<K, T>(v, n - 1) + v[n - 1].printed()
    }
}

/// Writes the first `n` things, one behind the other.
pub fn print_some<K, T: Printed<K>>(v: &Vec<T>, n: usize) -> (r: String)
    requires
        n <= v@.len(),
    ensures
        r@ == all_printed::<K, T>(v@, n as int),
{
    let mut out = "".to_owned();
    let mut i: usize = 0;
    while i < n
        invariant
            i <= n <= v@.len(),
            out@ == all_printed::<K, T>(v@, i as int),
        decreases n - i,
    {
        out.append(v[i].print().as_str());
        i += 1;
    }
    out
}

/// Writes things, one behind the other.
pub fn print_all<K, T: Printed<K>>(v: &Vec<T>) -> (r: String)
    ensures
        r@ == all_printed::<K, T>(v@, v@.len() as int),
{
    print_some::<K, T>(v, v.len())
}

/// What is written of the first ten things, and how many more there are.
pub open spec fn ten_printed<K, T: Printed<K>>(v: Seq<T>) -> Seq<char> {
    if v.len() > 10 {
        all_printed::<K, T>(v, 10) + "  ... and "@ + text::decimal((v.len() - 10) as nat)
            + " more\n"@
    } else {
        all_printed::<K, T>(v, v.len() as int)
    }
}

/// Writes the first ten things, and how many more there are.
pub fn print_ten<K, T: Printed<K>>(v: &Vec<T>) -> (r: String)
    ensures
        r@ == ten_printed::<K, T>(v@),
{
    if v.len() > 10 {
        let mut out = print_some::<K, T>(v, 10);
        out.append("  ... and ");
        out.append(count_text(v.len() - 10).as_str());
        out.append(" more\n");
        out
    } else {
        print_all::<K, T>(v)
    }
}

/// A label and a count on a line.
pub open spec fn count_line(label: Seq<char>, n: nat) -> Seq<char> {
    label + text::decimal(n) + "\n"@
}

/// A label and a count on a line.
pub fn line_of_count(label: &str, n: usize) -> (r: String)
    ensures
        r@ == count_line(label@, n as nat),
{
    let mut out = label.to_owned();
    out.append(count_text(n).as_str());
    out.append("\n");
    out
}

/// A label and a text on a line.
pub open spec fn text_line(label: Seq<char>, s: Seq<char>) -> Seq<char> {
    label + s + "\n"@
}

/// A label and a text on a line.
pub fn line_of_text(label: &str, s: &str) -> (r: String)
    ensures
        r@ == text_line(label@, s@),
{
    let mut out = label.to_owned();
    out.append(s);
    out.append("\n");
    out
}

/// What a thing is as a JSON value in a report of kind `K`.
pub trait Recorded<K>: Sized {
    spec fn recorded(self) -> JsonForm;

    fn record(&self) -> (r: serde_json::Value)
        ensures
            json::json_content(r) == self.recorded(),
    ;
}

/// Things as a JSON list.
pub open spec fn all_recorded<K, T: Recorded<K>>(v: Seq<T>) -> JsonForm {
    JsonForm::List(v.map_values(|x: T| x.recorded()))
}

/// Things as a JSON list.
pub fn record_all<K, T: Recorded<K>>(v: &Vec<T>) -> (r: serde_json::Value)
    ensures
        json::json_content(r) == all_recorded::<K, T>(v@),
{
    let mut out: Vec<serde_json::Value> = Vec::new();
    let mut i: usize = 0;
    while i < v.len()
        invariant
            i <= v@.len(),
            out@.len() == i,
            forall|k: int|
                0 <= k < i ==> json::json_content(#[trigger] out@[k]) == v@[k].recorded(),
        decreases v@.len() - i,
    {
        out.push(v[i].record());
        i += 1;
    }
    proof {
        assert(json::contents(out@) =~= v@.map_values(|x: T| x.recorded()));
    }
    list(out)
}

} // verus!
