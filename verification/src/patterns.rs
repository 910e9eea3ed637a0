//! Regular expressions, as the `regex` crate evaluates them.
use vstd::prelude::*;

verus! {

/// Whether the regular expression `pattern` is valid and matches somewhere in `text`.
pub uninterp spec fn pattern_matches(pattern: Seq<char>, text: Seq<char>) -> bool;

/// `text` with every match of the regular expression `pattern` replaced by the expansion of
/// `with`, or `text` itself where the expression is not valid.
pub uninterp spec fn pattern_replaced(pattern: Seq<char>, text: Seq<char>, with: Seq<char>) -> Seq<
    char,
>;

/// The groups of the first match of the regular expression `pattern` in `text`, group zero being
/// the whole match.
pub uninterp spec fn pattern_groups(pattern: Seq<char>, text: Seq<char>) -> Option<
    Seq<Option<Seq<char>>>,
>;

/// The groups of a match, as mathematical values.
pub open spec fn group_views(v: Seq<Option<String>>) -> Seq<Option<Seq<char>>> {
    v.map_values(|g: Option<String>| group_view(g))
}

/// One group of a match, as a mathematical value.
pub open spec fn group_view(g: Option<String>) -> Option<Seq<char>> {
    match g {
        Some(s) => Some(s@),
        None => None,
    }
}

/// `Regex::new` and `Regex::is_match`: the answer depends on the expression and the text alone. An
/// expression that is not valid matches nothing.
#[verifier::external_body]
pub(crate) fn is_match(pattern: &str, text: &str) -> (r: bool)
    ensures
        r == pattern_matches(pattern@, text@),
{
    regex::Regex::new(pattern).is_ok_and(|re| re.is_match(text))
}

/// `Regex::new` and `Regex::replace_all`: the new text depends on the expression, the text and the
/// replacement alone. An expression that is not valid leaves the text as it is.
#[verifier::external_body]
pub(crate) fn replace_all(pattern: &str, text: &str, with: &str) -> (r: String)
    ensures
        r@ == pattern_replaced(pattern@, text@, with@),
{
    match regex::Regex::new(pattern) {
        Ok(re) => re.replace_all(text, with).to_string(),
        Err(_) => text.to_string(),
    }
}

/// `Regex::new` and `Regex::captures`: the groups depend on the expression and the text alone. An
/// expression that is not valid has no match.
#[verifier::external_body]
pub(crate) fn captures(pattern: &str, text: &str) -> (r: Option<Vec<Option<String>>>)
    ensures
        match r {
            Some(v) => pattern_groups(pattern@, text@) == Some(group_views(v@)),
            None => pattern_groups(pattern@, text@) is None,
        },
{
    let found = regex::Regex::new(pattern).ok()?.captures(text)?;
    Some(found.iter().map(|g| g.map(|m| m.as_str().to_string())).collect())
}

/// One group of the first match of `pattern` in `text`, where there is a match and the group took
/// part in it.
pub open spec fn group_of(pattern: Seq<char>, text: Seq<char>, i: int) -> Option<Seq<char>> {
    match pattern_groups(pattern, text) {
        Some(g) => if 0 <= i < g.len() {
            g[i]
        } else {
            None
        },
        None => None,
    }
}

/// One group of the first match.
pub(crate) fn capture_group(pattern: &str, text: &str, i: usize) -> (r: Option<String>)
    ensures
        group_view(r) == group_of(pattern@, text@, i as int),
{
    match captures(pattern, text) {
        Some(mut v) => {
            if i < v.len() {
                proof {
                    assert(group_views(v@)[i as int] == group_view(v@[i as int]));
                }
                v.swap_remove(i)
            } else {
                None
            }
        },
        None => None,
    }
}

/// Whether a character has a meaning of its own in regular expressions.
pub open spec fn meta(c: char) -> bool {
    ||| c == '\\' || c == '.' || c == '+' || c == '*' || c == '?' || c == '|'
    ||| c == '(' || c == ')' || c == '[' || c == ']' || c == '{' || c == '}'
    ||| c == '^' || c == '$' || c == '#' || c == '&' || c == '-' || c == '~'
}

/// The regular expression that matches a text and nothing else: a backslash stands before each
/// character that has a meaning of its own.
pub open spec fn pattern_escaped(text: Seq<char>) -> Seq<char>
    decreases text.len(),
{
    if text.len() == 0 {
        seq![]
    } else if meta(text.last()) {
        pattern_escaped(text.drop_last()).push('\\').push(text.last())
    } else {
        pattern_escaped(text.drop_last()).push(text.last())
    }
}

/// `regex::escape`: a backslash is put before each character that has a meaning of its own, and the
/// other characters stay.
#[verifier::external_body]
pub(crate) fn escape(text: &str) -> (r: String)
    ensures
        r@ == pattern_escaped(text@),
{
    regex::escape(text)
}

/// One match of a regular expression: its groups, group zero being the whole match, the text from
/// the start of the match on, and the text behind the match.
#[derive(Debug)]
pub struct Found {
    pub groups: Vec<Option<String>>,
    pub from: String,
    pub after: String,
}

impl View for Found {
    type V = (Seq<Option<Seq<char>>>, Seq<char>, Seq<char>);

    open spec fn view(&self) -> (Seq<Option<Seq<char>>>, Seq<char>, Seq<char>) {
        (group_views(self.groups@), self.from@, self.after@)
    }
}

/// Matches as mathematical values.
pub open spec fn found_views(v: Seq<Found>) -> Seq<
    (Seq<Option<Seq<char>>>, Seq<char>, Seq<char>),
> {
    v.map_values(|f: Found| f@)
}

/// The matches of the regular expression `pattern` in `text` that do not overlap, from the left: of
/// each the groups, the text from its start on, and the text behind it.
pub uninterp spec fn pattern_all(pattern: Seq<char>, text: Seq<char>) -> Seq<
    (Seq<Option<Seq<char>>>, Seq<char>, Seq<char>),
>;

/// `Regex::new` and `Regex::captures_iter`: the matches depend on the expression and the text alone.
/// An expression that is not valid has none.
#[verifier::external_body]
pub(crate) fn captures_iter(pattern: &str, text: &str) -> (r: Vec<Found>)
    ensures
        found_views(r@) == pattern_all(pattern@, text@),
{
    match regex::Regex::new(pattern) {
        Ok(re) => re.captures_iter(text).map(|c| Found {
            groups: c.iter().map(|g| g.map(|m| m.as_str().to_string())).collect(),
            from: c.get(0).map_or(String::new(), |m| text[m.start()..].to_string()),
            after: c.get(0).map_or(String::new(), |m| text[m.end()..].to_string()),
        }).collect(),
        Err(_) => Vec::new(),
    }
}

/// The text of a group, empty where the group took no part in the match.
pub open spec fn group_text(groups: Seq<Option<Seq<char>>>, i: int) -> Seq<char> {
    match group_in(groups, i) {
        Some(s) => s,
        None => seq![],
    }
}

/// A group, where it took part in the match.
pub open spec fn group_in(groups: Seq<Option<Seq<char>>>, i: int) -> Option<Seq<char>> {
    if 0 <= i < groups.len() {
        groups[i]
    } else {
        None
    }
}

impl Found {
    /// A group, where it took part in the match.
    pub fn group(&self, i: usize) -> (r: Option<String>)
        ensures
            group_view(r) == group_in(self@.0, i as int),
    {
        if i < self.groups.len() {
            proof {
                assert(group_views(self.groups@)[i as int] == group_view(self.groups@[i as int]));
            }
            match &self.groups[i] {
                Some(s) => Some(s.as_str().to_owned()),
                None => None,
            }
        } else {
            None
        }
    }

    /// The text of a group, empty where the group took no part in the match.
    pub fn text_of(&self, i: usize) -> (r: String)
        ensures
            r@ == group_text(self@.0, i as int),
    {
        match self.group(i) {
            Some(s) => s,
            None => {
                let r = String::new();
                proof {
                    assert(r@ =~= seq![]);
                }
                r
            },
        }
    }
}

} // verus!
