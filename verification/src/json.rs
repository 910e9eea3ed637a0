//! JSON values, as the `serde_json` crate holds, reads and writes them.
use vstd::prelude::*;
use crate::text;

verus! {

/// `serde_json::Value`.
#[verifier::external_type_specification]
#[verifier::external_body]
pub struct ExValue(serde_json::Value);

/// `serde_json::Number`.
#[verifier::external_type_specification]
#[verifier::external_body]
pub struct ExNumber(serde_json::Number);

/// What a JSON value holds.
pub enum JsonForm {
    Null,
    Truth(bool),
    /// A number, by the text that it is written as.
    Number(Seq<char>),
    Text(Seq<char>),
    List(Seq<JsonForm>),
    Object(Map<Seq<char>, JsonForm>),
}

/// What a JSON value holds.
pub uninterp spec fn json_content(v: serde_json::Value) -> JsonForm;

/// The text that a number is written as.
pub uninterp spec fn number_text(n: serde_json::Number) -> Seq<char>;

/// The text of a JSON value with line breaks and indentation, if it can be written.
pub uninterp spec fn json_pretty(j: JsonForm) -> Option<Seq<char>>;

/// The text of a JSON value in one line.
pub uninterp spec fn json_compact(j: JsonForm) -> Seq<char>;

/// What a text holds as a JSON value, or what is wrong with it.
pub uninterp spec fn json_read(s: Seq<char>) -> Result<JsonForm, Seq<char>>;

/// What JSON values hold.
pub open spec fn contents(v: Seq<serde_json::Value>) -> Seq<JsonForm> {
    v.map_values(|x: serde_json::Value| json_content(x))
}

/// What the first `n` of named JSON values hold, by their names. A later one takes the place of an
/// earlier one of the same name.
pub open spec fn entries(v: Seq<(String, serde_json::Value)>, n: int) -> Map<Seq<char>, JsonForm>
    decreases n,
{
    if n <= 0 || n > v.len() {
        Map::empty()
    } else {
        entries(v, n - 1).insert(v[n - 1].0@, json_content(v[n - 1].1))
    }
}

/// `serde_json::Value::Null`.
#[verifier::external_body]
pub(crate) fn null() -> (r: serde_json::Value)
    ensures
        json_content(r) == JsonForm::Null,
{
    serde_json::Value::Null
}

/// `serde_json::Value::Bool`.
#[verifier::external_body]
pub(crate) fn truth(b: bool) -> (r: serde_json::Value)
    ensures
        json_content(r) == JsonForm::Truth(b),
{
    serde_json::Value::Bool(b)
}

/// `serde_json::Value` from a `usize`: a number that is written in decimal digits.
#[verifier::external_body]
pub(crate) fn count(n: usize) -> (r: serde_json::Value)
    ensures
        json_content(r) == JsonForm::Number(text::decimal(n as nat)),
{
    serde_json::Value::from(n)
}

/// `serde_json::Value::Number`: the number that it is given.
#[verifier::external_body]
pub(crate) fn figure(n: &serde_json::Number) -> (r: serde_json::Value)
    ensures
        json_content(r) == JsonForm::Number(number_text(*n)),
{
    serde_json::Value::Number(n.clone())
}

/// `serde_json::Value::String`.
#[verifier::external_body]
pub(crate) fn word(s: &str) -> (r: serde_json::Value)
    ensures
        json_content(r) == JsonForm::Text(s@),
{
    serde_json::Value::String(s.to_string())
}

/// `serde_json::Value::Array`: the values in their order.
#[verifier::external_body]
pub(crate) fn list(v: Vec<serde_json::Value>) -> (r: serde_json::Value)
    ensures
        json_content(r) == JsonForm::List(contents(v@)),
{
    serde_json::Value::Array(v)
}

/// `serde_json::Value` collected from named values: an object in which the last value of a name
/// counts.
#[verifier::external_body]
pub(crate) fn object(v: Vec<(String, serde_json::Value)>) -> (r: serde_json::Value)
    ensures
        json_content(r) == JsonForm::Object(entries(v@, v@.len() as int)),
{
    v.into_iter().collect()
}

/// Whether a value is a tree of at most `depth` levels whose numbers are counts: such a value is read
/// back as it was written.
pub open spec fn reads_back(j: JsonForm, depth: nat) -> bool
    decreases depth,
{
    match j {
        JsonForm::Null => true,
        JsonForm::Truth(_) => true,
        JsonForm::Number(t) => exists|n: u64| t == #[trigger] text::decimal(n as nat),
        JsonForm::Text(_) => true,
        JsonForm::List(v) => depth > 0 && forall|i: int|
            0 <= i < v.len() ==> reads_back(#[trigger] v[i], (depth - 1) as nat),
        JsonForm::Object(m) => depth > 0 && forall|k: Seq<char>|
            m.contains_key(k) ==> reads_back(#[trigger] m[k], (depth - 1) as nat),
    }
}

/// What is read back of fewer levels is read back of more.
pub proof fn lemma_reads_back_deeper(j: JsonForm, d: nat, e: nat)
    requires
        reads_back(j, d),
        d <= e,
    ensures
        reads_back(j, e),
    decreases d,
{
    match j {
        JsonForm::List(v) => {
            assert forall|i: int| 0 <= i < v.len() implies reads_back(
                #[trigger] v[i],
                (e - 1) as nat,
            ) by {
                lemma_reads_back_deeper(v[i], (d - 1) as nat, (e - 1) as nat);
            }
        },
        JsonForm::Object(m) => {
            assert forall|k: Seq<char>| m.contains_key(k) implies reads_back(
                #[trigger] m[k],
                (e - 1) as nat,
            ) by {
                lemma_reads_back_deeper(m[k], (d - 1) as nat, (e - 1) as nat);
            }
        },
        _ => {},
    }
}

/// An object of values that are read back, with one more.
pub proof fn lemma_object_reads_back(m: Map<Seq<char>, JsonForm>, key: Seq<char>, j: JsonForm, d: nat)
    requires
        reads_back(JsonForm::Object(m), d),
        d > 0,
        reads_back(j, (d - 1) as nat),
    ensures
        reads_back(JsonForm::Object(m.insert(key, j)), d),
{
    let e = (d - 1) as nat;
    let w = m.insert(key, j);
    let o = JsonForm::Object(m);
    assert forall|k: Seq<char>| w.contains_key(k) implies reads_back(#[trigger] w[k], e) by {
        if k != key {
            assert(o->Object_0.contains_key(k) && w[k] == o->Object_0[k]);
        }
    }
}

/// A count is read back.
pub proof fn lemma_count_reads_back(n: nat, d: nat)
    requires
        n <= u64::MAX,
    ensures
        reads_back(number(n), d),
{
    assert(text::decimal(n) == text::decimal((n as u64) as nat));
}

/// Whether a text holds a JSON value.
pub open spec fn holds(s: Seq<char>, j: JsonForm) -> bool {
    json_read(s) == Ok::<JsonForm, Seq<char>>(j)
}

/// `serde_json::to_string_pretty`: the text depends on what the value holds alone. What is not more
/// than 127 levels deep and has no numbers but counts is written, and `serde_json::from_str` reads
/// the same from the text.
#[verifier::external_body]
pub(crate) fn pretty(v: &serde_json::Value) -> (r: Option<String>)
    ensures
        match r {
            Some(s) => json_pretty(json_content(*v)) == Some(s@) && (reads_back(
                json_content(*v),
                127,
            ) ==> holds(s@, json_content(*v))),
            None => json_pretty(json_content(*v)) is None && !reads_back(json_content(*v), 127),
        },
{
    serde_json::to_string_pretty(v).ok()
}

/// `serde_json::Value::to_string`: the text depends on what the value holds alone.
#[verifier::external_body]
pub(crate) fn compact(v: &serde_json::Value) -> (r: String)
    ensures
        r@ == json_compact(json_content(*v)),
{
    v.to_string()
}

/// `serde_json::from_str`: what the text holds, or the message of the error, depends on the text
/// alone.
#[verifier::external_body]
pub(crate) fn read(s: &str) -> (r: Result<serde_json::Value, String>)
    ensures
        match r {
            Ok(v) => json_read(s@) == Ok::<JsonForm, Seq<char>>(json_content(v)),
            Err(e) => json_read(s@) == Err::<JsonForm, Seq<char>>(e@),
        },
{
    serde_json::from_str(s).map_err(|e: serde_json::Error| e.to_string())
}

/// The value of a name, where there is one.
pub open spec fn member_of(j: JsonForm, key: Seq<char>) -> Option<JsonForm> {
    match j {
        JsonForm::Object(m) => if m.contains_key(key) {
            Some(m[key])
        } else {
            None
        },
        _ => None,
    }
}

/// The text that a value is, where it is one.
pub open spec fn text_in(j: Option<JsonForm>) -> Option<Seq<char>> {
    match j {
        Some(JsonForm::Text(s)) => Some(s),
        _ => None,
    }
}

/// `serde_json::Value::get` with a name: the value of the name in an object, and nothing in any other
/// value.
#[verifier::external_body]
pub(crate) fn member<'a>(v: &'a serde_json::Value, key: &str) -> (r: Option<&'a serde_json::Value>)
    ensures
        match r {
            Some(x) => member_of(json_content(*v), key@) == Some(json_content(*x)),
            None => member_of(json_content(*v), key@) is None,
        },
{
    v.get(key)
}

/// `serde_json::Value::as_array`: the values of an array in their order, and nothing of any other
/// value.
#[verifier::external_body]
pub(crate) fn items(v: &serde_json::Value) -> (r: Option<&Vec<serde_json::Value>>)
    ensures
        match r {
            Some(x) => json_content(*v) == JsonForm::List(contents(x@)),
            None => !(json_content(*v) is List),
        },
{
    v.as_array()
}

/// `serde_json::Value::as_str`: the text of a string, and nothing of any other value.
#[verifier::external_body]
pub(crate) fn as_text(v: &serde_json::Value) -> (r: Option<&str>)
    ensures
        match r {
            Some(s) => json_content(*v) == JsonForm::Text(s@),
            None => !(json_content(*v) is Text),
        },
{
    v.as_str()
}

// ---------------------------------------------------------------------------
// Putting values together
// ---------------------------------------------------------------------------
/// An object while it is put together.
pub(crate) struct Fields {
    pub(crate) entries: Vec<(String, serde_json::Value)>,
}

impl View for Fields {
    type V = Map<Seq<char>, JsonForm>;

    closed spec fn view(&self) -> Map<Seq<char>, JsonForm> {
        entries(self.entries@, self.entries@.len() as int)
    }
}

proof fn lemma_entries_front(
    v: Seq<(String, serde_json::Value)>,
    w: Seq<(String, serde_json::Value)>,
    n: int,
)
    requires
        0 <= n <= v.len(),
        v.is_prefix_of(w),
    ensures
        entries(v, n) == entries(w, n),
    decreases n,
{
    if n > 0 {
        lemma_entries_front(v, w, n - 1);
        assert(v[n - 1] == w[n - 1]);
    }
}

impl Fields {
    pub(crate) fn new() -> (r: Fields)
        ensures
            r@ == Map::<Seq<char>, JsonForm>::empty(),
    {
        Fields { entries: Vec::new() }
    }

    pub(crate) fn put(&mut self, key: &str, v: serde_json::Value)
        ensures
            final(self)@ == old(self)@.insert(key@, json_content(v)),
    {
        let ghost had = self.entries@;
        self.entries.push((key.to_owned(), v));
        proof {
            lemma_entries_front(had, self.entries@, had.len() as int);
        }
    }

    pub(crate) fn put_text(&mut self, key: &str, s: &str)
        ensures
            final(self)@ == old(self)@.insert(key@, JsonForm::Text(s@)),
    {
        self.put(key, word(s));
    }

    pub(crate) fn put_count(&mut self, key: &str, n: usize)
        ensures
            final(self)@ == old(self)@.insert(key@, JsonForm::Number(text::decimal(n as nat))),
    {
        self.put(key, count(n));
    }

    pub(crate) fn put_truth(&mut self, key: &str, b: bool)
        ensures
            final(self)@ == old(self)@.insert(key@, JsonForm::Truth(b)),
    {
        self.put(key, truth(b));
    }

    pub(crate) fn close(self) -> (r: serde_json::Value)
        ensures
            json_content(r) == JsonForm::Object(self@),
    {
        object(self.entries)
    }
}

/// A count as a JSON value.
pub open spec fn number(n: nat) -> JsonForm {
    JsonForm::Number(text::decimal(n))
}

/// The text of a JSON value with line breaks and indentation, or an empty object where it cannot be
/// written.
pub open spec fn pretty_or_empty(j: JsonForm) -> Seq<char> {
    match json_pretty(j) {
        Some(s) => s,
        None => "{}"@,
    }
}

/// The text of a JSON value with line breaks and indentation.
pub(crate) fn pretty_text(v: &serde_json::Value) -> (r: String)
    ensures
        r@ == pretty_or_empty(json_content(*v)),
        reads_back(json_content(*v), 127) ==> holds(r@, json_content(*v)),
{
    match pretty(v) {
        Some(s) => s,
        None => "{}".to_owned(),
    }
}

/// Texts as a JSON value.
pub open spec fn texts(v: Seq<Seq<char>>) -> JsonForm {
    JsonForm::List(v.map_values(|s: Seq<char>| JsonForm::Text(s)))
}

/// Texts as a JSON value.
pub(crate) fn list_of_texts(v: &Vec<String>) -> (r: serde_json::Value)
    ensures
        json_content(r) == texts(text::views(v@)),
{
    let mut out: Vec<serde_json::Value> = Vec::new();
    let mut i: usize = 0;
    while i < v.len()
        invariant
            i <= v@.len(),
            out@.len() == i,
            forall|k: int|
                0 <= k < i ==> json_content(#[trigger] out@[k]) == JsonForm::Text(v@[k]@),
        decreases v@.len() - i,
    {
        out.push(word(v[i].as_str()));
        i += 1;
    }
    proof {
        assert(contents(out@) =~= text::views(v@).map_values(|s: Seq<char>| JsonForm::Text(s)));
    }
    list(out)
}

} // verus!
