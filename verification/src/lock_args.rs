//! The arguments of the attribute that ties a function to a section of the specification.
use vstd::prelude::*;
use crate::chars;
use crate::chars::trim;
use crate::patterns;
use crate::text;
use crate::text::{cat3, contains, same, split};

verus! {

/// A token of the arguments.
#[derive(Debug)]
pub enum ArgToken {
    /// A string literal, by what it holds.
    Text(String),
    /// A name that is no keyword.
    Word(String),
    Comma,
    Equals,
    Other,
}

/// A token of the arguments as a mathematical value.
pub enum TokenView {
    Text(Seq<char>),
    Word(Seq<char>),
    Comma,
    Equals,
    Other,
}

impl View for ArgToken {
    type V = TokenView;

    open spec fn view(&self) -> TokenView {
        match *self {
            ArgToken::Text(s) => TokenView::Text(s@),
            ArgToken::Word(s) => TokenView::Word(s@),
            ArgToken::Comma => TokenView::Comma,
            ArgToken::Equals => TokenView::Equals,
            ArgToken::Other => TokenView::Other,
        }
    }
}

/// Tokens as mathematical values.
pub open spec fn token_views(v: Seq<ArgToken>) -> Seq<TokenView> {
    v.map_values(|t: ArgToken| t@)
}

/// The arguments of the attribute. Each may be missing:
/// `("6.1")`, `("6.1", "Name")`, `("6.1::Name")` or `(section = "6.1", function = "Name")`.
#[derive(Debug)]
pub struct SpecLockedArgs {
    pub section: Option<String>,
    pub function: Option<String>,
    pub spec_path: Option<String>,
}

/// The arguments as a mathematical value.
#[verifier::ext_equal]
pub struct ArgsView {
    pub section: Option<Seq<char>>,
    pub function: Option<Seq<char>>,
    pub spec_path: Option<Seq<char>>,
}

impl View for SpecLockedArgs {
    type V = ArgsView;

    open spec fn view(&self) -> ArgsView {
        ArgsView {
            section: patterns::group_view(self.section),
            function: patterns::group_view(self.function),
            spec_path: patterns::group_view(self.spec_path),
        }
    }
}

/// What is wrong with arguments.
#[derive(Debug)]
pub enum ArgsError {
    /// A token that does not belong there, or one that is missing.
    Malformed,
    /// Another name than `spec_path` behind a section and a function in one.
    NoSpecPathAfterName,
    /// Another name than `spec_path`.
    NoSpecPath,
    /// A parameter that does not exist.
    Unknown(String),
}

/// What is wrong with arguments, as a mathematical value.
pub enum FaultView {
    Malformed,
    NoSpecPathAfterName,
    NoSpecPath,
    Unknown(Seq<char>),
}

impl View for ArgsError {
    type V = FaultView;

    open spec fn view(&self) -> FaultView {
        match *self {
            ArgsError::Malformed => FaultView::Malformed,
            ArgsError::NoSpecPathAfterName => FaultView::NoSpecPathAfterName,
            ArgsError::NoSpecPath => FaultView::NoSpecPath,
            ArgsError::Unknown(s) => FaultView::Unknown(s@),
        }
    }
}

/// The words for what is wrong.
pub open spec fn fault_words(e: FaultView) -> Seq<char> {
    match e {
        FaultView::Malformed => "unexpected token"@,
        FaultView::NoSpecPathAfterName => "Expected 'spec_path' after section::function"@,
        FaultView::NoSpecPath => "Expected 'spec_path'"@,
        FaultView::Unknown(key) => "Unknown parameter: "@ + key
            + ". Expected 'section', 'function', or 'spec_path'"@,
    }
}

impl ArgsError {
    /// The words for what is wrong.
    pub fn message(&self) -> (r: String)
        ensures
            r@ == fault_words(self@),
    {
        match self {
            ArgsError::Malformed => "unexpected token".to_owned(),
            ArgsError::NoSpecPathAfterName => "Expected 'spec_path' after section::function".to_owned(),
            ArgsError::NoSpecPath => "Expected 'spec_path'".to_owned(),
            ArgsError::Unknown(key) => cat3(
                "Unknown parameter: ",
                key.as_str(),
                ". Expected 'section', 'function', or 'spec_path'",
            ),
        }
    }
}

/// Arguments or what is wrong with them, as a mathematical value.
pub open spec fn args_view(r: Result<SpecLockedArgs, ArgsError>) -> Result<ArgsView, FaultView> {
    match r {
        Ok(a) => Ok(a@),
        Err(e) => Err(e@),
    }
}

// ---------------------------------------------------------------------------
// The grammar
// ---------------------------------------------------------------------------
/// The text that the token `i` is.
pub open spec fn text_at(ts: Seq<TokenView>, i: int) -> Option<Seq<char>> {
    if 0 <= i < ts.len() {
        match ts[i] {
            TokenView::Text(s) => Some(s),
            _ => None,
        }
    } else {
        None
    }
}

/// The name that the token `i` is.
pub open spec fn word_at(ts: Seq<TokenView>, i: int) -> Option<Seq<char>> {
    if 0 <= i < ts.len() {
        match ts[i] {
            TokenView::Word(s) => Some(s),
            _ => None,
        }
    } else {
        None
    }
}

/// Whether the token `i` is a comma.
pub open spec fn comma_at(ts: Seq<TokenView>, i: int) -> bool {
    0 <= i < ts.len() && ts[i] is Comma
}

/// Whether the token `i` is an equals sign.
pub open spec fn equals_at(ts: Seq<TokenView>, i: int) -> bool {
    0 <= i < ts.len() && ts[i] is Equals
}

/// The rest of positional arguments, from `i` on: nothing, a comma, or a comma and the path of the
/// specification.
pub open spec fn rest_given(ts: Seq<TokenView>, i: int, other: FaultView) -> Result<
    Option<Seq<char>>,
    FaultView,
> {
    if !comma_at(ts, i) {
        if i == ts.len() {
            Ok(None)
        } else {
            Err(FaultView::Malformed)
        }
    } else {
        match word_at(ts, i + 1) {
            None => if i + 1 == ts.len() {
                Ok(None)
            } else {
                Err(FaultView::Malformed)
            },
            Some(key) => if key != "spec_path"@ {
                Err(other)
            } else {
                match text_at(ts, i + 3) {
                    Some(p) if equals_at(ts, i + 2) && i + 4 == ts.len() => Ok(Some(p)),
                    _ => Err(FaultView::Malformed),
                }
            },
        }
    }
}

/// Positional arguments, of which the first is `first`.
pub open spec fn positional(ts: Seq<TokenView>, first: Seq<char>) -> Result<ArgsView, FaultView> {
    let parts = text::parts(first, "::"@);
    if text::holds(first, "::"@) && parts.len() == 2 {
        match rest_given(ts, 1, FaultView::NoSpecPathAfterName) {
            Ok(p) => Ok(
                ArgsView {
                    section: Some(chars::trimmed(parts[0])),
                    function: Some(chars::trimmed(parts[1])),
                    spec_path: p,
                },
            ),
            Err(e) => Err(e),
        }
    } else {
        let function = if comma_at(ts, 1) {
            text_at(ts, 2)
        } else {
            None
        };
        let at: int = if !comma_at(ts, 1) {
            1
        } else if function is Some {
            3
        } else {
            2
        };
        match rest_given(ts, at, FaultView::NoSpecPath) {
            Ok(p) => Ok(ArgsView { section: Some(first), function, spec_path: p }),
            Err(e) => Err(e),
        }
    }
}

/// Arguments with one more, by its name.
pub open spec fn with_argument(a: ArgsView, key: Seq<char>, value: Seq<char>) -> Option<ArgsView> {
    if key == "section"@ {
        Some(ArgsView { section: Some(value), ..a })
    } else if key == "function"@ {
        Some(ArgsView { function: Some(value), ..a })
    } else if key == "spec_path"@ {
        Some(ArgsView { spec_path: Some(value), ..a })
    } else {
        None
    }
}

/// Arguments by their names, from `i` on.
pub open spec fn named(ts: Seq<TokenView>, i: int, a: ArgsView) -> Result<ArgsView, FaultView>
    decreases ts.len() - i,
{
    if i >= ts.len() {
        Ok(a)
    } else {
        match (word_at(ts, i), text_at(ts, i + 2)) {
            (Some(key), Some(value)) if equals_at(ts, i + 1) => match with_argument(a, key, value) {
                None => Err(FaultView::Unknown(key)),
                Some(b) => if i + 3 == ts.len() {
                    Ok(b)
                } else if comma_at(ts, i + 3) {
                    named(ts, i + 4, b)
                } else {
                    Err(FaultView::Malformed)
                },
            },
            _ => Err(FaultView::Malformed),
        }
    }
}

/// No arguments.
pub open spec fn no_arguments() -> ArgsView {
    ArgsView { section: None, function: None, spec_path: None }
}

/// The arguments that tokens are.
pub open spec fn arguments(ts: Seq<TokenView>) -> Result<ArgsView, FaultView> {
    match text_at(ts, 0) {
        Some(first) => positional(ts, first),
        None => named(ts, 0, no_arguments()),
    }
}

// ---------------------------------------------------------------------------
// Reading
// ---------------------------------------------------------------------------
fn find_text(ts: &Vec<ArgToken>, i: usize) -> (r: Option<&str>)
    ensures
        match r {
            Some(s) => text_at(token_views(ts@), i as int) == Some(s@) && i < ts@.len(),
            None => text_at(token_views(ts@), i as int) is None,
        },
{
    if i < ts.len() {
        proof {
            assert(token_views(ts@)[i as int] == ts@[i as int]@);
        }
        match &ts[i] {
            ArgToken::Text(s) => Some(s.as_str()),
            _ => None,
        }
    } else {
        None
    }
}

fn find_word(ts: &Vec<ArgToken>, i: usize) -> (r: Option<&str>)
    ensures
        match r {
            Some(s) => word_at(token_views(ts@), i as int) == Some(s@) && i < ts@.len(),
            None => word_at(token_views(ts@), i as int) is None,
        },
{
    if i < ts.len() {
        proof {
            assert(token_views(ts@)[i as int] == ts@[i as int]@);
        }
        match &ts[i] {
            ArgToken::Word(s) => Some(s.as_str()),
            _ => None,
        }
    } else {
        None
    }
}

fn is_comma(ts: &Vec<ArgToken>, i: usize) -> (r: bool)
    ensures
        r == comma_at(token_views(ts@), i as int),
        r ==> i < ts@.len(),
{
    if i < ts.len() {
        proof {
            assert(token_views(ts@)[i as int] == ts@[i as int]@);
        }
        match &ts[i] {
            ArgToken::Comma => true,
            _ => false,
        }
    } else {
        false
    }
}

fn is_equals(ts: &Vec<ArgToken>, i: usize) -> (r: bool)
    ensures
        r == equals_at(token_views(ts@), i as int),
        r ==> i < ts@.len(),
{
    if i < ts.len() {
        proof {
            assert(token_views(ts@)[i as int] == ts@[i as int]@);
        }
        match &ts[i] {
            ArgToken::Equals => true,
            _ => false,
        }
    } else {
        false
    }
}

fn read_rest(ts: &Vec<ArgToken>, i: usize, other: ArgsError) -> (r: Result<Option<String>, ArgsError>)
    requires
        i <= 3,
        i <= ts@.len(),
    ensures
        match r {
            Ok(p) => rest_given(token_views(ts@), i as int, other@) == Ok::<
                Option<Seq<char>>,
                FaultView,
            >(patterns::group_view(p)),
            Err(e) => rest_given(token_views(ts@), i as int, other@) == Err::<
                Option<Seq<char>>,
                FaultView,
            >(e@),
        },
{
    proof {
        assert(token_views(ts@).len() == ts@.len());
    }
    if !is_comma(ts, i) {
        return if i == ts.len() {
            Ok(None)
        } else {
            Err(ArgsError::Malformed)
        };
    }
    match find_word(ts, i + 1) {
        None => if i + 1 == ts.len() {
            Ok(None)
        } else {
            Err(ArgsError::Malformed)
        },
        Some(key) => {
            if !same(key, "spec_path") {
                return Err(other);
            }
            let n: usize = i + 4;
            match find_text(ts, i + 3) {
                Some(p) => if is_equals(ts, i + 2) && n == ts.len() {
                    Ok(Some(p.to_owned()))
                } else {
                    Err(ArgsError::Malformed)
                },
                None => Err(ArgsError::Malformed),
            }
        },
    }
}

fn read_positional(ts: &Vec<ArgToken>, first: &str) -> (r: Result<SpecLockedArgs, ArgsError>)
    requires
        ts@.len() > 0,
    ensures
        args_view(r) == positional(token_views(ts@), first@),
{
    proof {
        reveal_strlit("::");
        assert(token_views(ts@).len() == ts@.len());
    }
    let parts = split(first, "::");
    proof {
        assert(text::views(parts@).len() == parts@.len());
    }
    if contains(first, "::") && parts.len() == 2 {
        proof {
            assert(text::views(parts@)[0] == parts@[0]@);
            assert(text::views(parts@)[1] == parts@[1]@);
        }
        return match read_rest(ts, 1, ArgsError::NoSpecPathAfterName) {
            Ok(p) => Ok(
                SpecLockedArgs {
                    section: Some(trim(parts[0].as_str())),
                    function: Some(trim(parts[1].as_str())),
                    spec_path: p,
                },
            ),
            Err(e) => Err(e),
        };
    }
    let mut function: Option<String> = None;
    let mut at: usize = 1;
    if is_comma(ts, 1) {
        at = 2;
        if let Some(s) = find_text(ts, 2) {
            function = Some(s.to_owned());
            at = 3;
        }
    }
    match read_rest(ts, at, ArgsError::NoSpecPath) {
        Ok(p) => Ok(SpecLockedArgs { section: Some(first.to_owned()), function, spec_path: p }),
        Err(e) => Err(e),
    }
}

#[verifier::loop_isolation(false)]
fn read_named(ts: &Vec<ArgToken>) -> (r: Result<SpecLockedArgs, ArgsError>)
    ensures
        args_view(r) == named(token_views(ts@), 0, no_arguments()),
{
    let ghost tv = token_views(ts@);
    let mut a = SpecLockedArgs { section: None, function: None, spec_path: None };
    let mut i: usize = 0;
    proof {
        assert(tv.len() == ts@.len());
    }
    while i < ts.len()
        invariant
            i <= ts@.len(),
            named(tv, 0, no_arguments()) == named(tv, i as int, a@),
        decreases ts@.len() - i,
    {
        if ts.len() - i < 3 {
            return Err(ArgsError::Malformed);
        }
        let key = match find_word(ts, i) {
            Some(s) => s,
            None => {
                return Err(ArgsError::Malformed);
            },
        };
        let value = match find_text(ts, i + 2) {
            Some(s) => s,
            None => {
                return Err(ArgsError::Malformed);
            },
        };
        if !is_equals(ts, i + 1) {
            return Err(ArgsError::Malformed);
        }
        if same(key, "section") {
            a.section = Some(value.to_owned());
        } else if same(key, "function") {
            a.function = Some(value.to_owned());
        } else if same(key, "spec_path") {
            a.spec_path = Some(value.to_owned());
        } else {
            return Err(ArgsError::Unknown(key.to_owned()));
        }
        if ts.len() - i == 3 {
            return Ok(a);
        }
        if !is_comma(ts, i + 3) {
            return Err(ArgsError::Malformed);
        }
        i += 4;
    }
    Ok(a)
}

/// The arguments that tokens are.
pub fn parse_args(ts: &Vec<ArgToken>) -> (r: Result<SpecLockedArgs, ArgsError>)
    ensures
        args_view(r) == arguments(token_views(ts@)),
{
    match find_text(ts, 0) {
        Some(first) => read_positional(ts, first),
        None => read_named(ts),
    }
}

proof fn lemma_key_names()
    ensures
        "section"@ != "function"@,
        "section"@ != "spec_path"@,
        "function"@ != "spec_path"@,
{
    reveal_strlit("section");
    reveal_strlit("function");
    reveal_strlit("spec_path");
    assert("section"@.len() == 7 && "function"@.len() == 8 && "spec_path"@.len() == 9);
}

/// The ways of writing a section and a function agree: by position, by name in one order or the
/// other, and in one text.
pub proof fn law_writings_agree(section: Seq<char>, function: Seq<char>)
    requires
        forall|i: int| 0 <= i < section.len() ==> section[i] != ':',
        forall|i: int| 0 <= i < function.len() ==> function[i] != ':',
        chars::trimmed(section) == section,
        chars::trimmed(function) == function,
    ensures
        ({
            let want = Ok::<ArgsView, FaultView>(
                ArgsView { section: Some(section), function: Some(function), spec_path: None },
            );
            &&& arguments(seq![TokenView::Text(section), TokenView::Comma, TokenView::Text(function)])
                == want
            &&& arguments(seq![TokenView::Text(section + "::"@ + function)]) == want
            &&& arguments(
                seq![
                    TokenView::Word("section"@),
                    TokenView::Equals,
                    TokenView::Text(section),
                    TokenView::Comma,
                    TokenView::Word("function"@),
                    TokenView::Equals,
                    TokenView::Text(function),
                ],
            ) == want
            &&& arguments(
                seq![
                    TokenView::Word("function"@),
                    TokenView::Equals,
                    TokenView::Text(function),
                    TokenView::Comma,
                    TokenView::Word("section"@),
                    TokenView::Equals,
                    TokenView::Text(section),
                ],
            ) == want
        }),
{
    reveal_strlit("::");
    lemma_key_names();
    reveal_with_fuel(named, 3);
    text::lemma_lacks(section, "::"@, 0);
    text::lemma_lacks(function, "::"@, 0);
    text::lemma_find_has(section, "::"@);
    text::lemma_find_has(function, "::"@);
    text::lemma_find_behind(section, "::"@, function);
    let both = section + "::"@ + function;
    text::lemma_find_has(both, "::"@);
    reveal_with_fuel(text::parts, 2);
    assert(text::parts(both, "::"@) =~= seq![section, function]);
}

/// The path of the specification can follow a section and a function, and a section by its name. A
/// name that no parameter has is refused.
pub proof fn law_spec_path_follows(
    section: Seq<char>,
    function: Seq<char>,
    path: Seq<char>,
    key: Seq<char>,
)
    requires
        forall|i: int| 0 <= i < section.len() ==> section[i] != ':',
        key != "section"@ && key != "function"@ && key != "spec_path"@,
    ensures
        arguments(
            seq![
                TokenView::Text(section),
                TokenView::Comma,
                TokenView::Text(function),
                TokenView::Comma,
                TokenView::Word("spec_path"@),
                TokenView::Equals,
                TokenView::Text(path),
            ],
        ) == Ok::<ArgsView, FaultView>(
            ArgsView { section: Some(section), function: Some(function), spec_path: Some(path) },
        ),
        arguments(
            seq![
                TokenView::Word("section"@),
                TokenView::Equals,
                TokenView::Text(section),
                TokenView::Comma,
                TokenView::Word("spec_path"@),
                TokenView::Equals,
                TokenView::Text(path),
            ],
        ) == Ok::<ArgsView, FaultView>(
            ArgsView { section: Some(section), function: None, spec_path: Some(path) },
        ),
        arguments(seq![TokenView::Word(key), TokenView::Equals, TokenView::Text(path)]) == Err::<
            ArgsView,
            FaultView,
        >(FaultView::Unknown(key)),
        arguments(
            seq![
                TokenView::Text(section),
                TokenView::Comma,
                TokenView::Text(function),
                TokenView::Comma,
                TokenView::Word(key),
                TokenView::Equals,
                TokenView::Text(path),
            ],
        ) == Err::<ArgsView, FaultView>(FaultView::NoSpecPath),
{
    reveal_strlit("::");
    lemma_key_names();
    reveal_with_fuel(named, 3);
    text::lemma_lacks(section, "::"@, 0);
}

} // verus!
