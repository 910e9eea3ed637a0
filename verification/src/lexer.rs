//! Lexer for specification conditions.
//!
//! Conditions mix mathematical notation with LaTeX commands. The lexer reads them as tokens, which
//! can be written out again as a Rust expression.
use vstd::prelude::*;
use crate::chars;
use crate::chars::{end_of_run, is_alphabetic, is_digit, trim, CharClass};
use crate::text;
use crate::text::{before_str, cat, from_range, replace, same, to_chars};

verus! {

/// A token of a condition.
#[derive(Debug, Clone, PartialEq)]
pub enum Token {
    Ident(String),
    Number(String),
    /// One of `>=`, `<=`, `==`, `!=`, `>`, `<`, `*`, `/`, `+`, `-`, `=>`, `&&`, `||`, `!`.
    Op(String),
    Lparen,
    Rparen,
    Comma,
    Dot,
}

/// A token as a mathematical value.
pub enum Lexeme {
    Ident(Seq<char>),
    Number(Seq<char>),
    Op(Seq<char>),
    Lparen,
    Rparen,
    Comma,
    Dot,
}

impl View for Token {
    type V = Lexeme;

    open spec fn view(&self) -> Lexeme {
        match self {
            Token::Ident(s) => Lexeme::Ident(s@),
            Token::Number(s) => Lexeme::Number(s@),
            Token::Op(s) => Lexeme::Op(s@),
            Token::Lparen => Lexeme::Lparen,
            Token::Rparen => Lexeme::Rparen,
            Token::Comma => Lexeme::Comma,
            Token::Dot => Lexeme::Dot,
        }
    }
}

/// The tokens of a list, as mathematical values.
pub open spec fn lexemes(ts: Seq<Token>) -> Seq<Lexeme> {
    ts.map_values(|t: Token| t@)
}

/// The character at `p`, if there is one.
pub open spec fn char_at(s: Seq<char>, p: int) -> Option<char> {
    if 0 <= p < s.len() {
        Some(s[p])
    } else {
        None
    }
}

/// The operators of two characters.
pub open spec fn double_op(c: char, d: Option<char>) -> Option<Seq<char>> {
    if c == '=' && d == Some('=') {
        Some("=="@)
    } else if c == '>' && d == Some('=') {
        Some(">="@)
    } else if c == '<' && d == Some('=') {
        Some("<="@)
    } else if c == '!' && d == Some('=') {
        Some("!="@)
    } else if c == '=' && d == Some('>') {
        Some("=>"@)
    } else if c == '&' && d == Some('&') {
        Some("&&"@)
    } else if c == '|' && d == Some('|') {
        Some("||"@)
    } else {
        None
    }
}

/// The tokens of one character. A single `=` means equality.
pub open spec fn single_token(c: char) -> Option<Lexeme> {
    if c == '(' {
        Some(Lexeme::Lparen)
    } else if c == ')' {
        Some(Lexeme::Rparen)
    } else if c == ',' {
        Some(Lexeme::Comma)
    } else if c == '.' {
        Some(Lexeme::Dot)
    } else if c == '*' {
        Some(Lexeme::Op("*"@))
    } else if c == '/' {
        Some(Lexeme::Op("/"@))
    } else if c == '+' {
        Some(Lexeme::Op("+"@))
    } else if c == '-' {
        Some(Lexeme::Op("-"@))
    } else if c == '>' {
        Some(Lexeme::Op(">"@))
    } else if c == '<' {
        Some(Lexeme::Op("<"@))
    } else if c == '=' {
        Some(Lexeme::Op("=="@))
    } else {
        None
    }
}

/// The operator that a LaTeX command stands for.
pub open spec fn command_op(cmd: Seq<char>) -> Option<Seq<char>> {
    if cmd == "cdot"@ || cmd == "cdotp"@ || cmd == "times"@ || cmd == "ast"@ {
        Some("*"@)
    } else if cmd == "div"@ {
        Some("/"@)
    } else if cmd == "leqslant"@ || cmd == "leq"@ {
        Some("<="@)
    } else if cmd == "geqslant"@ || cmd == "geq"@ {
        Some(">="@)
    } else if cmd == "equiv"@ || cmd == "coloneqq"@ || cmd == "eqqcolon"@ || cmd == "iff"@ {
        Some("=="@)
    } else if cmd == "implies"@ {
        Some("=>"@)
    } else if cmd == "land"@ {
        Some("&&"@)
    } else if cmd == "lor"@ {
        Some("||"@)
    } else if cmd == "neq"@ {
        Some("!="@)
    } else if cmd == "neg"@ {
        Some("!"@)
    } else {
        None
    }
}

/// The commands that set a name in another font.
pub open spec fn font_command(cmd: Seq<char>) -> bool {
    cmd == "text"@ || cmd == "mathrm"@ || cmd == "mathit"@ || cmd == "mathbf"@ || cmd == "mathsf"@
}

/// The commands that are dropped together with a group behind them.
pub open spec fn dropped_command(cmd: Seq<char>) -> bool {
    cmd == "lfloor"@ || cmd == "rfloor"@ || cmd == "mathbb"@
}

/// The commands that size a delimiter.
pub open spec fn sizing_command(cmd: Seq<char>) -> bool {
    cmd == "left"@ || cmd == "right"@
}

/// Reads on inside a group that is `depth` braces deep: what it holds without its braces, if it is
/// closed, and the position behind what was read.
pub open spec fn group_from(s: Seq<char>, p: int, depth: nat, held: Seq<char>) -> (
    Option<Seq<char>>,
    int,
)
    decreases s.len() - p,
{
    if p < 0 || p >= s.len() {
        (None, p)
    } else if s[p] == '{' {
        group_from(s, p + 1, depth + 1, held)
    } else if s[p] == '}' {
        if depth <= 1 {
            (Some(held), p + 1)
        } else {
            group_from(s, p + 1, (depth - 1) as nat, held)
        }
    } else {
        group_from(s, p + 1, depth, held.push(s[p]))
    }
}

/// What is read from position `from`: the next token and the position behind it.
pub open spec fn lexed(s: Seq<char>, from: int) -> (Option<Lexeme>, int)
    decreases s.len() - from, 1int,
{
    proof {
        if 0 <= from <= s.len() {
            chars::lemma_run_end(s, from, CharClass::Space);
        }
    }
    let p = chars::run_end(s, from, CharClass::Space);
    if p < 0 || p >= s.len() {
        (None, p)
    } else {
        let c = s[p];
        match double_op(c, char_at(s, p + 1)) {
            Some(op) => (Some(Lexeme::Op(op)), p + 2),
            None => if c == '-' && (char_at(s, p + 1) matches Some(d) && chars::ascii_digit(d)) {
                let e = chars::run_end(s, p + 1, CharClass::NumberTail);
                (Some(Lexeme::Number(s.subrange(p, e))), e)
            } else if single_token(c) is Some {
                (single_token(c), p + 1)
            } else if c == '\\' {
                let e = chars::run_end(s, p + 1, CharClass::CommandTail);
                let cmd = s.subrange(p + 1, e);
                if font_command(cmd) && char_at(s, e) == Some('{') {
                    let (inner, q) = group_from(s, e + 1, 1, seq![]);
                    match inner {
                        Some(name) => (Some(Lexeme::Ident(name)), q),
                        None => lexed_after(s, p, q + 1),
                    }
                } else if command_op(cmd) is Some {
                    (Some(Lexeme::Op(command_op(cmd)->0)), e)
                } else if sizing_command(cmd) {
                    if char_at(s, e) == Some('(') {
                        (Some(Lexeme::Lparen), e + 1)
                    } else if char_at(s, e) == Some(')') {
                        (Some(Lexeme::Rparen), e + 1)
                    } else if char_at(s, e) == Some('|') || char_at(s, e) == Some('.') {
                        lexed_after(s, p, e + 1)
                    } else {
                        lexed_after(s, p, e)
                    }
                } else if dropped_command(cmd) {
                    if char_at(s, e) == Some('{') {
                        lexed_after(s, p, group_from(s, e + 1, 1, seq![]).1)
                    } else {
                        lexed_after(s, p, e)
                    }
                } else {
                    lexed_after(s, p, e + 1)
                }
            } else if chars::alphabetic(c) || c == '_' {
                let e = chars::run_end(s, p, CharClass::IdentTail);
                (Some(Lexeme::Ident(s.subrange(p, e))), e)
            } else if chars::ascii_digit(c) {
                let e = chars::run_end(s, p, CharClass::NumberTail);
                (Some(Lexeme::Number(s.subrange(p, e))), e)
            } else {
                lexed_after(s, p, p + 1)
            },
        }
    }
}

/// What is read from position `q`, cut to the end of the text, when something at `p` was dropped.
pub open spec fn lexed_after(s: Seq<char>, p: int, q: int) -> (Option<Lexeme>, int)
    decreases s.len() - p, 0int,
{
    let q = if q > s.len() {
        s.len() as int
    } else {
        q
    };
    if p < q {
        lexed(s, q)
    } else {
        (None, q)
    }
}

/// All tokens that are read from position `p` on.
pub open spec fn lexed_all(s: Seq<char>, p: int) -> Seq<Lexeme>
    decreases s.len() - p,
{
    match lexed(s, p) {
        (Some(t), q) if p < q <= s.len() => seq![t] + lexed_all(s, q),
        _ => seq![],
    }
}

/// A group is read up to a position inside the text.
pub proof fn lemma_group_from(s: Seq<char>, p: int, depth: nat, held: Seq<char>)
    requires
        0 <= p <= s.len(),
    ensures
        p <= group_from(s, p, depth, held).1 <= s.len(),
        group_from(s, p, depth, held).0 is None ==> group_from(s, p, depth, held).1 == s.len(),
    decreases s.len() - p,
{
    if p < s.len() {
        if s[p] == '{' {
            lemma_group_from(s, p + 1, depth + 1, held);
        } else if s[p] == '}' {
            if depth > 1 {
                lemma_group_from(s, p + 1, (depth - 1) as nat, held);
            }
        } else {
            lemma_group_from(s, p + 1, depth, held.push(s[p]));
        }
    }
}

/// Every token is read from inside the text and takes at least one character, so reading a text
/// comes to an end.
pub proof fn lemma_lexed_advances(s: Seq<char>, from: int)
    requires
        0 <= from <= s.len(),
    ensures
        from <= lexed(s, from).1 <= s.len(),
        lexed(s, from).0 is Some ==> from < lexed(s, from).1,
        lexed(s, from).0 is None ==> lexed(s, from).1 == s.len(),
    decreases s.len() - from, 1int,
{
    chars::lemma_run_end(s, from, CharClass::Space);
    let p = chars::run_end(s, from, CharClass::Space);
    if p < s.len() {
        let c = s[p];
        chars::lemma_run_end(s, p, CharClass::IdentTail);
        chars::lemma_run_end(s, p, CharClass::NumberTail);
        if p + 1 <= s.len() {
            chars::lemma_run_end(s, p + 1, CharClass::NumberTail);
            chars::lemma_run_end(s, p + 1, CharClass::CommandTail);
        }
        let e = chars::run_end(s, p + 1, CharClass::CommandTail);
        if e < s.len() {
            lemma_group_from(s, e + 1, 1, seq![]);
        }
        lemma_lexed_after(s, p, p + 1);
        lemma_lexed_after(s, p, e);
        lemma_lexed_after(s, p, e + 1);
        lemma_lexed_after(s, p, group_from(s, e + 1, 1, seq![]).1);
        lemma_lexed_after(s, p, group_from(s, e + 1, 1, seq![]).1 + 1);
    }
}

proof fn lemma_lexed_after(s: Seq<char>, p: int, q: int)
    requires
        0 <= p < s.len(),
    ensures
        p < q ==> p < lexed_after(s, p, q).1 <= s.len(),
        p < q && lexed_after(s, p, q).0 is None ==> lexed_after(s, p, q).1 == s.len(),
    decreases s.len() - p, 0int,
{
    let r = if q > s.len() {
        s.len() as int
    } else {
        q
    };
    if p < r {
        lemma_lexed_advances(s, r);
    }
}

/// Reads a condition token by token.
pub struct Lexer {
    input: Vec<char>,
    pos: usize,
}

impl Lexer {
    #[verifier::type_invariant]
    spec fn inside(self) -> bool {
        self.pos <= self.input@.len()
    }

    /// The text that is read.
    pub closed spec fn input(&self) -> Seq<char> {
        self.input@
    }

    /// The position up to which it has been read.
    pub closed spec fn pos(&self) -> int {
        self.pos as int
    }

    /// A lexer at the start of `input`.
    pub fn new(input: &str) -> (r: Self)
        ensures
            r.input() == input@,
            r.pos() == 0,
    {
        Lexer { input: to_chars(input), pos: 0 }
    }

    fn peek(&self) -> (r: Option<char>)
        ensures
            r == char_at(self.input(), self.pos()),
    {
        self.peek_n(0)
    }

    fn peek_n(&self, n: usize) -> (r: Option<char>)
        ensures
            r == char_at(self.input(), self.pos() + n),
    {
        proof {
            use_type_invariant(self);
        }
        if n < self.input.len() - self.pos {
            Some(self.input[self.pos + n])
        } else {
            None
        }
    }

    fn advance(&mut self) -> (r: Option<char>)
        ensures
            final(self).input() == old(self).input(),
            r == char_at(old(self).input(), old(self).pos()),
            final(self).pos() == (if r is Some {
                old(self).pos() + 1
            } else {
                old(self).pos()
            }),
    {
        proof {
            use_type_invariant(&*self);
        }
        let c = self.peek();
        if c.is_some() {
            proof {
                assert(self.pos < self.input.len());
            }
            self.pos = self.pos + 1;
        }
        c
    }

    /// Reads over the characters of one class and hands them out.
    fn read_run(&mut self, k: CharClass) -> (r: String)
        ensures
            final(self).input() == old(self).input(),
            final(self).pos() == chars::run_end(old(self).input(), old(self).pos(), k),
            r@ == old(self).input().subrange(
                old(self).pos(),
                chars::run_end(old(self).input(), old(self).pos(), k),
            ),
    {
        proof {
            use_type_invariant(&*self);
        }
        let e: usize = end_of_run(self.input.as_slice(), self.pos, k);
        let s = from_range(self.input.as_slice(), self.pos, e);
        self.pos = e;
        s
    }

    fn skip_whitespace(&mut self)
        ensures
            final(self).input() == old(self).input(),
            final(self).pos() == chars::run_end(old(self).input(), old(self).pos(), CharClass::Space),
    {
        let _ = self.read_run(CharClass::Space);
    }

    fn read_ident(&mut self) -> (r: String)
        ensures
            final(self).input() == old(self).input(),
            final(self).pos() == chars::run_end(old(self).input(), old(self).pos(), CharClass::IdentTail),
            r@ == old(self).input().subrange(old(self).pos(), final(self).pos()),
    {
        self.read_run(CharClass::IdentTail)
    }

    fn read_number(&mut self) -> (r: String)
        ensures
            final(self).input() == old(self).input(),
            final(self).pos() == chars::run_end(old(self).input(), old(self).pos(), CharClass::NumberTail),
            r@ == old(self).input().subrange(old(self).pos(), final(self).pos()),
    {
        self.read_run(CharClass::NumberTail)
    }

    fn read_backslash_command(&mut self) -> (r: Option<String>)
        ensures
            final(self).input() == old(self).input(),
            char_at(old(self).input(), old(self).pos()) == Some('\\') ==> {
                &&& r is Some
                &&& final(self).pos() == chars::run_end(
                    old(self).input(),
                    old(self).pos() + 1,
                    CharClass::CommandTail,
                )
                &&& r->0@ == old(self).input().subrange(old(self).pos() + 1, final(self).pos())
            },
            char_at(old(self).input(), old(self).pos()) != Some('\\') ==> r is None && final(self).pos() == old(self).pos(),
    {
        match self.peek() {
            Some('\\') => {
                let _ = self.advance();
                Some(self.read_run(CharClass::CommandTail))
            },
            _ => None,
        }
    }

    fn read_curly_content(&mut self) -> (r: Option<String>)
        ensures
            final(self).input() == old(self).input(),
            char_at(old(self).input(), old(self).pos()) != Some('{') ==> r is None && final(self).pos() == old(self).pos(),
            char_at(old(self).input(), old(self).pos()) == Some('{') ==> ({
                let g = group_from(old(self).input(), old(self).pos() + 1, 1, seq![]);
                &&& final(self).pos() == g.1
                &&& (r is Some <==> g.0 is Some)
                &&& (r is Some ==> r->0@ == g.0->0)
            }),
    {
        match self.peek() {
            Some('{') => {},
            _ => {
                return None;
            },
        }
        let _ = self.advance();
        let ghost start = self.pos();
        let mut depth: usize = 1;
        let mut s = String::new();
        loop
            invariant
                self.input() == old(self).input(),
                1 <= depth <= self.pos(),
                start == old(self).pos() + 1,
                char_at(old(self).input(), old(self).pos()) == Some('{'),
                group_from(self.input(), start, 1, seq![]) == group_from(
                    self.input(),
                    self.pos(),
                    depth as nat,
                    s@,
                ),
            decreases self.input().len() - self.pos(),
        {
            proof {
                use_type_invariant(&*self);
            }
            match self.advance() {
                Some('{') => {
                    proof {
                        use_type_invariant(&*self);
                    }
                    depth += 1;
                },
                Some('}') => {
                    if depth == 1 {
                        return Some(s);
                    }
                    depth -= 1;
                },
                Some(c) => s.push(c),
                None => {
                    return None;
                },
            }
        }
    }

    /// The next token, or `None` at the end.
    pub fn next_token(&mut self) -> (r: Option<Token>)
        ensures
            final(self).input() == old(self).input(),
            final(self).pos() == lexed(old(self).input(), old(self).pos()).1,
            match r {
                Some(t) => lexed(old(self).input(), old(self).pos()).0 == Some(t@),
                None => lexed(old(self).input(), old(self).pos()).0 is None,
            },
            0 <= old(self).pos() <= final(self).pos() <= final(self).input().len(),
            r is Some ==> old(self).pos() < final(self).pos(),
        decreases old(self).input().len() - old(self).pos(), 1int,
    {
        proof {
            use_type_invariant(&*self);
            lemma_lexed_advances(self.input(), self.pos());
            chars::lemma_run_end(self.input(), self.pos(), CharClass::Space);
        }
        let ghost s = self.input();
        self.skip_whitespace();
        let ghost p = self.pos();
        let c = match self.peek() {
            Some(c) => c,
            None => {
                return None;
            },
        };
        let d = self.peek_n(1);
        if let Some(op) = double_operator(c, d) {
            let _ = self.advance();
            let _ = self.advance();
            return Some(Token::Op(op));
        }
        if c == '-' && next_is_digit(d) {
            let _ = self.advance();
            let tail = self.read_number();
            proof {
                chars::lemma_run_end(s, p + 1, CharClass::NumberTail);
                reveal_strlit("-");
                assert("-"@ + tail@ =~= s.subrange(p, self.pos()));
            }
            return Some(Token::Number(cat("-", tail.as_str())));
        }
        if let Some(t) = one_char_token(c) {
            let _ = self.advance();
            return Some(t);
        }
        if c == '\\' {
            return self.next_after_command();
        }
        if is_alphabetic(c) || c == '_' {
            return Some(Token::Ident(self.read_ident()));
        }
        if is_digit(c) {
            return Some(Token::Number(self.read_number()));
        }
        let _ = self.advance();
        self.next_token()
    }

    /// The next token where a backslash stands at the reading position.
    fn next_after_command(&mut self) -> (r: Option<Token>)
        requires
            char_at(old(self).input(), old(self).pos()) == Some('\\'),
        ensures
            final(self).input() == old(self).input(),
            final(self).pos() == lexed(old(self).input(), old(self).pos()).1,
            match r {
                Some(t) => lexed(old(self).input(), old(self).pos()).0 == Some(t@),
                None => lexed(old(self).input(), old(self).pos()).0 is None,
            },
            0 <= old(self).pos() <= final(self).pos() <= final(self).input().len(),
            r is Some ==> old(self).pos() < final(self).pos(),
        decreases old(self).input().len() - old(self).pos(), 0int,
    {
        let ghost s = self.input();
        let ghost p = self.pos();
        proof {
            use_type_invariant(&*self);
            lemma_lexed_advances(s, p);
            chars::lemma_run_end(s, p + 1, CharClass::CommandTail);
            assert(chars::run_end(s, p, CharClass::Space) == p);
        }
        let cmd = match self.read_backslash_command() {
            Some(cmd) => cmd,
            None => String::new(),
        };
        let ghost e = self.pos();
        proof {
            if e < s.len() {
                lemma_group_from(s, e + 1, 1, seq![]);
            }
        }
        let next = self.peek();
        let opens = match next {
            Some('{') => true,
            _ => false,
        };
        if is_font_command(cmd.as_str()) && opens {
            if let Some(inner) = self.read_curly_content() {
                return Some(Token::Ident(inner));
            }
        } else if let Some(op) = operator_of_command(cmd.as_str()) {
            return Some(Token::Op(op));
        } else if same(cmd.as_str(), "left") || same(cmd.as_str(), "right") {
            match next {
                Some('(') => {
                    let _ = self.advance();
                    return Some(Token::Lparen);
                },
                Some(')') => {
                    let _ = self.advance();
                    return Some(Token::Rparen);
                },
                Some('|') => {
                    let _ = self.advance();
                    return self.next_token();
                },
                Some('.') => {
                    let _ = self.advance();
                    return self.next_token();
                },
                _ => {
                    return self.next_token();
                },
            }
        } else if same(cmd.as_str(), "lfloor") || same(cmd.as_str(), "rfloor") || same(
            cmd.as_str(),
            "mathbb",
        ) {
            if opens {
                let _ = self.read_curly_content();
            }
            return self.next_token();
        }
        let _ = self.advance();
        self.next_token()
    }

    /// All tokens from the reading position to the end.
    pub fn lex(&mut self) -> (r: Vec<Token>)
        ensures
            lexemes(r@) == lexed_all(old(self).input(), old(self).pos()),
            final(self).input() == old(self).input(),
            final(self).pos() == final(self).input().len(),
            0 <= old(self).pos() <= old(self).input().len(),
    {
        proof {
            use_type_invariant(&*self);
        }
        let mut tokens: Vec<Token> = Vec::new();
        proof {
            assert(lexemes(tokens@) + lexed_all(self.input(), self.pos()) =~= lexed_all(
                self.input(),
                self.pos(),
            ));
        }
        loop
            invariant
                self.input() == old(self).input(),
                0 <= old(self).pos() <= old(self).input().len(),
                lexed_all(old(self).input(), old(self).pos()) == lexemes(tokens@) + lexed_all(
                    self.input(),
                    self.pos(),
                ),
            decreases self.input().len() - self.pos(),
        {
            let ghost before = self.pos();
            let ghost had = tokens@;
            proof {
                use_type_invariant(&*self);
                lemma_lexed_advances(self.input(), before);
            }
            match self.next_token() {
                Some(t) => {
                    let ghost tv = t@;
                    tokens.push(t);
                    proof {
                        assert(lexemes(tokens@) =~= lexemes(had).push(tv));
                        assert(lexemes(had) + (seq![tv] + lexed_all(self.input(), self.pos()))
                            =~= lexemes(tokens@) + lexed_all(self.input(), self.pos()));
                    }
                },
                None => {
                    proof {
                        assert(lexemes(tokens@) + Seq::<Lexeme>::empty() =~= lexemes(tokens@));
                    }
                    return tokens;
                },
            }
        }
    }
}

fn next_is_digit(d: Option<char>) -> (r: bool)
    ensures
        r == (d matches Some(x) && chars::ascii_digit(x)),
{
    match d {
        Some(x) => is_digit(x),
        None => false,
    }
}

fn double_operator(c: char, d: Option<char>) -> (r: Option<String>)
    ensures
        match r {
            Some(op) => double_op(c, d) == Some(op@),
            None => double_op(c, d) is None,
        },
{
    match d {
        Some('=') => if c == '=' {
            Some("==".to_owned())
        } else if c == '>' {
            Some(">=".to_owned())
        } else if c == '<' {
            Some("<=".to_owned())
        } else if c == '!' {
            Some("!=".to_owned())
        } else {
            None
        },
        Some('>') => if c == '=' {
            Some("=>".to_owned())
        } else {
            None
        },
        Some('&') => if c == '&' {
            Some("&&".to_owned())
        } else {
            None
        },
        Some('|') => if c == '|' {
            Some("||".to_owned())
        } else {
            None
        },
        _ => None,
    }
}

fn one_char_token(c: char) -> (r: Option<Token>)
    ensures
        match r {
            Some(t) => single_token(c) == Some(t@),
            None => single_token(c) is None,
        },
{
    if c == '(' {
        Some(Token::Lparen)
    } else if c == ')' {
        Some(Token::Rparen)
    } else if c == ',' {
        Some(Token::Comma)
    } else if c == '.' {
        Some(Token::Dot)
    } else if c == '*' {
        Some(Token::Op("*".to_owned()))
    } else if c == '/' {
        Some(Token::Op("/".to_owned()))
    } else if c == '+' {
        Some(Token::Op("+".to_owned()))
    } else if c == '-' {
        Some(Token::Op("-".to_owned()))
    } else if c == '>' {
        Some(Token::Op(">".to_owned()))
    } else if c == '<' {
        Some(Token::Op("<".to_owned()))
    } else if c == '=' {
        Some(Token::Op("==".to_owned()))
    } else {
        None
    }
}

fn is_font_command(cmd: &str) -> (r: bool)
    ensures
        r == font_command(cmd@),
{
    same(cmd, "text") || same(cmd, "mathrm") || same(cmd, "mathit") || same(cmd, "mathbf") || same(
        cmd,
        "mathsf",
    )
}

fn operator_of_command(cmd: &str) -> (r: Option<String>)
    ensures
        match r {
            Some(op) => command_op(cmd@) == Some(op@),
            None => command_op(cmd@) is None,
        },
{
    if same(cmd, "cdot") || same(cmd, "cdotp") || same(cmd, "times") || same(cmd, "ast") {
        Some("*".to_owned())
    } else if same(cmd, "div") {
        Some("/".to_owned())
    } else if same(cmd, "leqslant") || same(cmd, "leq") {
        Some("<=".to_owned())
    } else if same(cmd, "geqslant") || same(cmd, "geq") {
        Some(">=".to_owned())
    } else if same(cmd, "equiv") || same(cmd, "coloneqq") || same(cmd, "eqqcolon") || same(
        cmd,
        "iff",
    ) {
        Some("==".to_owned())
    } else if same(cmd, "implies") {
        Some("=>".to_owned())
    } else if same(cmd, "land") {
        Some("&&".to_owned())
    } else if same(cmd, "lor") {
        Some("||".to_owned())
    } else if same(cmd, "neq") {
        Some("!=".to_owned())
    } else if same(cmd, "neg") {
        Some("!".to_owned())
    } else {
        None
    }
}

/// The Rust name of an identifier of a condition: no name stands for the result, primes are
/// spelled out, and arguments are dropped.
pub open spec fn rust_ident(s: Seq<char>) -> Seq<char> {
    let t = chars::trimmed(s);
    if t.len() == 0 {
        "result"@
    } else if t == "result"@ || t == "true"@ || t == "false"@ {
        t
    } else {
        text::before(
            text::replaced(text::replaced(t, "script'"@, "script_out"@), "pattern'"@, "pattern_out"@),
            "("@,
        )
    }
}

/// How one token is written.
pub open spec fn token_text(t: Lexeme) -> Seq<char> {
    match t {
        Lexeme::Ident(s) => rust_ident(s),
        Lexeme::Number(s) => s,
        Lexeme::Op(s) => s,
        Lexeme::Lparen => "("@,
        Lexeme::Rparen => ")"@,
        Lexeme::Comma => ", "@,
        Lexeme::Dot => "."@,
    }
}

/// Whether a space is written between two tokens.
pub open spec fn spaced(t: Lexeme, next: Lexeme) -> bool {
    !(next is Rparen || next is Comma || next is Op) && !(t is Lparen || t is Comma || t is Op)
}

/// The first `n` tokens as a Rust expression, each with the space behind it.
pub open spec fn rust_expr_of(ts: Seq<Lexeme>, n: int) -> Seq<char>
    decreases n,
{
    if n <= 0 || n > ts.len() {
        seq![]
    } else {
        rust_expr_of(ts, n - 1) + token_text(ts[n - 1]) + (if n < ts.len() && spaced(
            ts[n - 1],
            ts[n],
        ) {
            " "@
        } else {
            seq![]
        })
    }
}

/// The tokens as a Rust expression.
pub open spec fn rust_expr(ts: Seq<Lexeme>) -> Seq<char> {
    rust_expr_of(ts, ts.len() as int)
}

/// Writes tokens out as a Rust expression.
pub fn tokens_to_rust_expr(tokens: &[Token]) -> (r: String)
    ensures
        r@ == rust_expr(lexemes(tokens@)),
{
    let mut out = String::new();
    let mut i: usize = 0;
    while i < tokens.len()
        invariant
            i <= tokens.len(),
            out@ == rust_expr_of(lexemes(tokens@), i as int),
        decreases tokens.len() - i,
    {
        let ghost ts = lexemes(tokens@);
        let ghost had = out@;
        match &tokens[i] {
            Token::Ident(s) => {
                let rust = spec_ident_to_rust(s.as_str());
                out.append(rust.as_str());
            },
            Token::Number(s) => out.append(s.as_str()),
            Token::Op(s) => out.append(s.as_str()),
            Token::Lparen => out.append("("),
            Token::Rparen => out.append(")"),
            Token::Comma => out.append(", "),
            Token::Dot => out.append("."),
        }
        proof {
            assert(out@ == had + token_text(ts[i as int]));
        }
        if i + 1 < tokens.len() {
            let tight_next = match &tokens[i + 1] {
                Token::Rparen => true,
                Token::Comma => true,
                Token::Op(_) => true,
                _ => false,
            };
            let tight = match &tokens[i] {
                Token::Lparen => true,
                Token::Comma => true,
                Token::Op(_) => true,
                _ => false,
            };
            proof {
                assert(ts[i + 1] == tokens@[i + 1]@);
                assert(ts[i as int] == tokens@[i as int]@);
            }
            if !tight_next && !tight {
                out.append(" ");
            } else {
                proof {
                    assert(out@ + Seq::<char>::empty() =~= out@);
                }
            }
        } else {
            proof {
                assert(out@ + Seq::<char>::empty() =~= out@);
            }
        }
        i += 1;
    }
    out
}

/// The Rust name of an identifier of a condition.
pub fn spec_ident_to_rust(s: &str) -> (r: String)
    ensures
        r@ == rust_ident(s@),
{
    let s = trim(s);
    if s.as_str().is_empty() {
        return "result".to_owned();
    }
    if same(s.as_str(), "result") || same(s.as_str(), "true") || same(s.as_str(), "false") {
        return s;
    }
    let s = replace(s.as_str(), "script'", "script_out");
    let s = replace(s.as_str(), "pattern'", "pattern_out");
    before_str(s.as_str(), "(")
}

// ---------------------------------------------------------------------------
// Laws
// ---------------------------------------------------------------------------
/// The operators of two operands.
pub open spec fn operator(op: Seq<char>) -> bool {
    op == ">="@ || op == "<="@ || op == "=="@ || op == "!="@ || op == ">"@ || op == "<"@ || op == "*"@
        || op == "/"@ || op == "+"@ || op == "-"@ || op == "=>"@ || op == "&&"@ || op == "||"@
}

proof fn lemma_operators_read(s: Seq<char>, from: int)
    requires
        0 <= from <= s.len(),
        forall|j: int| from <= j ==> !text::occurs_at(s, "\\neg"@, j),
    ensures
        lexed(s, from).0 matches Some(Lexeme::Op(op)) ==> operator(op),
    decreases s.len() - from, 1int,
{
    chars::lemma_run_end(s, from, CharClass::Space);
    let p = chars::run_end(s, from, CharClass::Space);
    if p < s.len() {
        chars::lemma_run_end(s, p + 1, CharClass::CommandTail);
        let e = chars::run_end(s, p + 1, CharClass::CommandTail);
        let cmd = s.subrange(p + 1, e);
        if s[p] == '\\' && cmd == "neg"@ {
            reveal_strlit("neg");
            reveal_strlit("\\neg");
            assert(cmd.len() == e - (p + 1));
            assert(s.subrange(p, p + 4) =~= "\\neg"@) by {
                assert(cmd[0] == s[p + 1] && cmd[1] == s[p + 2] && cmd[2] == s[p + 3]);
            }
            assert(text::occurs_at(s, "\\neg"@, p));
        }
        lemma_operators_read_after(s, p, p + 1);
        lemma_operators_read_after(s, p, e);
        lemma_operators_read_after(s, p, e + 1);
        lemma_operators_read_after(s, p, group_from(s, e + 1, 1, seq![]).1);
        lemma_operators_read_after(s, p, group_from(s, e + 1, 1, seq![]).1 + 1);
    }
}

proof fn lemma_operators_read_after(s: Seq<char>, p: int, q: int)
    requires
        0 <= p < s.len(),
        forall|j: int| p <= j ==> !text::occurs_at(s, "\\neg"@, j),
    ensures
        lexed_after(s, p, q).0 matches Some(Lexeme::Op(op)) ==> operator(op),
    decreases s.len() - p, 0int,
{
    let r = if q > s.len() {
        s.len() as int
    } else {
        q
    };
    if p < r {
        lemma_operators_read(s, r);
    }
}

/// Where the rest of the text has no `\neg`, an operator that is read from it is one of two operands.
pub proof fn law_operators_have_two_operands(s: Seq<char>, from: int)
    requires
        0 <= from <= s.len(),
        !text::holds(s.skip(from), "\\neg"@),
    ensures
        lexed(s, from).0 matches Some(Lexeme::Op(op)) ==> operator(op),
{
    let neg = "\\neg"@;
    assert forall|j: int| from <= j implies !text::occurs_at(s, neg, j) by {
        if text::occurs_at(s, neg, j) {
            assert(s.skip(from).subrange(j - from, j - from + neg.len()) =~= s.subrange(
                j,
                j + neg.len(),
            ));
            assert(text::occurs_at(s.skip(from), neg, j - from));
        }
    }
    lemma_operators_read(s, from);
}

/// A name of ASCII letters, digits and `_` that does not begin with a digit.
pub open spec fn plain_ident(s: Seq<char>) -> bool {
    &&& s.len() > 0
    &&& chars::all_in(s, CharClass::AsciiWord)
    &&& !chars::ascii_digit(s[0])
}

/// A number: digits, points and `_` from a digit on, with or without a minus sign in front.
pub open spec fn plain_number(s: Seq<char>) -> bool {
    let sign: int = if s.len() > 0 && s[0] == '-' {
        1
    } else {
        0
    };
    &&& s.len() > sign
    &&& chars::ascii_digit(s[sign])
    &&& forall|i: int| sign <= i < s.len() ==> chars::in_class(CharClass::NumberTail, #[trigger] s[i])
}

/// A token that can be written as it is.
pub open spec fn plain_token(t: Lexeme) -> bool {
    match t {
        Lexeme::Ident(s) => plain_ident(s),
        Lexeme::Number(s) => plain_number(s),
        Lexeme::Op(s) => operator(s),
        _ => true,
    }
}

/// Whether two tokens stay apart when they are written one behind the other: no operator directly
/// follows another, and no minus sign stands in front of a number without a sign.
pub open spec fn stay_apart(t: Lexeme, next: Lexeme) -> bool {
    &&& !(t is Op && next is Op)
    &&& !(t == Lexeme::Op("-"@) && (next matches Lexeme::Number(s) && chars::ascii_digit(s[0])))
}

/// Tokens that can be written as they are and stay apart.
pub open spec fn plain_tokens(ts: Seq<Lexeme>) -> bool {
    &&& forall|i: int| 0 <= i < ts.len() ==> plain_token(#[trigger] ts[i])
    &&& forall|i: int, j: int|
        0 <= i && j == i + 1 && j < ts.len() ==> stay_apart(#[trigger] ts[i], #[trigger] ts[j])
}

/// How a token is written, without the space that belongs to a comma.
spec fn core_text(t: Lexeme) -> Seq<char> {
    match t {
        Lexeme::Ident(s) => s,
        Lexeme::Number(s) => s,
        Lexeme::Op(s) => s,
        Lexeme::Lparen => seq!['('],
        Lexeme::Rparen => seq![')'],
        Lexeme::Comma => seq![','],
        Lexeme::Dot => seq!['.'],
    }
}

/// Whether reading the token `t` ends before the character `c`.
spec fn ends_before(t: Lexeme, c: char) -> bool {
    match t {
        Lexeme::Ident(_) => !chars::in_class(CharClass::IdentTail, c),
        Lexeme::Number(_) => !chars::in_class(CharClass::NumberTail, c),
        Lexeme::Op(s) => c != '=' && !(s == "-"@ && chars::ascii_digit(c)),
        _ => true,
    }
}

proof fn lemma_plain_ident(s: Seq<char>)
    requires
        plain_ident(s),
    ensures
        rust_ident(s) == s,
{
    assert(chars::in_class(CharClass::AsciiWord, s[0]));
    assert(chars::in_class(CharClass::AsciiWord, s.last()));
    assert(chars::trimmed(s) == s);
    reveal_strlit("script'");
    reveal_strlit("pattern'");
    reveal_strlit("(");
    assert forall|i: int| 0 <= i < s.len() implies s[i] != '\'' && s[i] != '(' by {
        assert(chars::in_class(CharClass::AsciiWord, s[i]));
    }
    text::lemma_lacks(s, "script'"@, 6);
    text::lemma_absent(s, "script'"@, "script_out"@);
    text::lemma_lacks(s, "pattern'"@, 7);
    text::lemma_absent(s, "pattern'"@, "pattern_out"@);
    text::lemma_lacks(s, "("@, 0);
    text::lemma_absent(s, "("@, seq![]);
}

proof fn lemma_operator_texts()
    ensures
        ">="@ =~= seq!['>', '='],
        "<="@ =~= seq!['<', '='],
        "=="@ =~= seq!['=', '='],
        "!="@ =~= seq!['!', '='],
        "=>"@ =~= seq!['=', '>'],
        "&&"@ =~= seq!['&', '&'],
        "||"@ =~= seq!['|', '|'],
        ">"@ =~= seq!['>'],
        "<"@ =~= seq!['<'],
        "*"@ =~= seq!['*'],
        "/"@ =~= seq!['/'],
        "+"@ =~= seq!['+'],
        "-"@ =~= seq!['-'],
{
    reveal_strlit(">=");
    reveal_strlit("<=");
    reveal_strlit("==");
    reveal_strlit("!=");
    reveal_strlit("=>");
    reveal_strlit("&&");
    reveal_strlit("||");
    reveal_strlit(">");
    reveal_strlit("<");
    reveal_strlit("*");
    reveal_strlit("/");
    reveal_strlit("+");
    reveal_strlit("-");
}

/// A plain token is read where it stands, behind white space.
proof fn lemma_plain_token_read(s: Seq<char>, from: int, a: int, t: Lexeme)
    requires
        plain_token(t),
        0 <= from <= a,
        a + core_text(t).len() <= s.len(),
        forall|i: int| from <= i < a ==> #[trigger] s[i] == ' ',
        s.subrange(a, a + core_text(t).len()) == core_text(t),
        a + core_text(t).len() < s.len() ==> ends_before(t, s[a + core_text(t).len()]),
    ensures
        lexed(s, from) == (Some(t), a + core_text(t).len()),
        core_text(t).len() > 0,
{
    let x = core_text(t);
    let e = a + x.len();
    lemma_operator_texts();
    assert forall|i: int| 0 <= i < x.len() implies s[a + i] == #[trigger] x[i] by {
        assert(s.subrange(a, e)[i] == s[a + i]);
    }
    match t {
        Lexeme::Ident(_) => {
            assert(chars::in_class(CharClass::AsciiWord, x[0]));
            assert forall|i: int| a <= i < e implies chars::in_class(
                CharClass::IdentTail,
                #[trigger] s[i],
            ) by {
                assert(chars::in_class(CharClass::AsciiWord, x[i - a]));
            }
            assert(s[a] == x[0]);
            chars::lemma_run_ends_at(s, from, a, CharClass::Space);
            chars::lemma_run_ends_at(s, a, e, CharClass::IdentTail);
        },
        Lexeme::Number(_) => {
            let sign: int = if x[0] == '-' {
                1
            } else {
                0
            };
            assert(s[a] == x[0]);
            assert(s[a + sign] == x[sign]);
            assert forall|i: int| a + sign <= i < e implies chars::in_class(
                CharClass::NumberTail,
                #[trigger] s[i],
            ) by {
                assert(chars::in_class(CharClass::NumberTail, x[i - a]));
            }
            chars::lemma_run_ends_at(s, from, a, CharClass::Space);
            chars::lemma_run_ends_at(s, a + sign, e, CharClass::NumberTail);
        },
        Lexeme::Op(_) => {
            assert(s[a] == x[0]);
            if x.len() == 2 {
                assert(s[a + 1] == x[1]);
            }
            chars::lemma_run_ends_at(s, from, a, CharClass::Space);
        },
        _ => {
            assert(s[a] == x[0]);
            chars::lemma_run_ends_at(s, from, a, CharClass::Space);
        },
    }
}

/// What is written first stays at the start.
proof fn lemma_written_in_order(ts: Seq<Lexeme>, i: int, n: int)
    requires
        0 <= i <= n <= ts.len(),
    ensures
        rust_expr_of(ts, i).len() <= rust_expr_of(ts, n).len(),
        rust_expr_of(ts, n).take(rust_expr_of(ts, i).len() as int) == rust_expr_of(ts, i),
    decreases n - i,
{
    if i < n {
        lemma_written_in_order(ts, i, n - 1);
        let x = rust_expr_of(ts, i);
        let y = rust_expr_of(ts, n - 1);
        let z = rust_expr_of(ts, n);
        assert(z.take(y.len() as int) =~= y);
        assert(z.take(x.len() as int) =~= y.take(x.len() as int));
    } else {
        assert(rust_expr_of(ts, n).take(rust_expr_of(ts, i).len() as int) =~= rust_expr_of(ts, i));
    }
}

/// Where the token `i` of plain tokens stands in what is written: itself first, then only spaces up
/// to the next.
proof fn lemma_token_place(ts: Seq<Lexeme>, i: int)
    requires
        plain_tokens(ts),
        0 <= i < ts.len(),
    ensures
        ({
            let s = rust_expr(ts);
            let a = rust_expr_of(ts, i).len() as int;
            let e = a + core_text(ts[i]).len();
            let b = rust_expr_of(ts, i + 1).len() as int;
            &&& 0 <= a <= e <= b <= s.len()
            &&& s.subrange(a, e) == core_text(ts[i])
            &&& forall|j: int| e <= j < b ==> #[trigger] s[j] == ' '
            &&& e == b && b < s.len() ==> i + 1 < ts.len() && !spaced(ts[i], ts[i + 1]) && !(
            ts[i] is Comma)
        }),
{
    let s = rust_expr(ts);
    let t = ts[i];
    let before = rust_expr_of(ts, i);
    let now = rust_expr_of(ts, i + 1);
    let a = before.len() as int;
    let e = a + core_text(t).len();
    let b = now.len() as int;
    let tail: Seq<char> = if i + 1 < ts.len() && spaced(t, ts[i + 1]) {
        " "@
    } else {
        seq![]
    };
    assert(plain_token(t));
    lemma_written_in_order(ts, i + 1, ts.len() as int);
    if let Lexeme::Ident(x) = t {
        lemma_plain_ident(x);
    }
    reveal_strlit("(");
    reveal_strlit(")");
    reveal_strlit(", ");
    reveal_strlit(".");
    reveal_strlit(" ");
    assert(now == before + token_text(t) + tail);
    assert forall|j: int| 0 <= j < b implies s[j] == #[trigger] now[j] by {
        assert(s.take(b)[j] == s[j]);
    }
    assert(s.subrange(a, e) =~= core_text(t)) by {
        assert forall|k: int| 0 <= k < core_text(t).len() implies s[a + k] == #[trigger] core_text(
            t,
        )[k] by {
            assert(now[a + k] == token_text(t)[k]);
        }
    }
    assert forall|j: int| e <= j < b implies #[trigger] s[j] == ' ' by {
        assert(now[j] == ' ');
    }
}

/// The first character of a plain token that is written.
proof fn lemma_first_char(ts: Seq<Lexeme>, i: int)
    requires
        plain_tokens(ts),
        0 <= i < ts.len(),
    ensures
        core_text(ts[i]).len() > 0,
        rust_expr_of(ts, i).len() < rust_expr(ts).len(),
        rust_expr(ts)[rust_expr_of(ts, i).len() as int] == core_text(ts[i])[0],
{
    lemma_token_place(ts, i);
    lemma_operator_texts();
    assert(plain_token(ts[i]));
    let s = rust_expr(ts);
    let a = rust_expr_of(ts, i).len() as int;
    assert(s.subrange(a, a + core_text(ts[i]).len())[0] == s[a]);
}

/// Reading a token of plain tokens ends where its text does.
proof fn lemma_token_ends(ts: Seq<Lexeme>, i: int)
    requires
        plain_tokens(ts),
        0 <= i < ts.len(),
    ensures
        ({
            let s = rust_expr(ts);
            let e = rust_expr_of(ts, i).len() + core_text(ts[i]).len();
            e < s.len() ==> ends_before(ts[i], s[e as int])
        }),
{
    let s = rust_expr(ts);
    let t = ts[i];
    let e = rust_expr_of(ts, i).len() + core_text(t).len();
    let b = rust_expr_of(ts, i + 1).len();
    lemma_token_place(ts, i);
    lemma_operator_texts();
    if e < s.len() {
        if e < b {
            assert(s[e as int] == ' ');
        } else {
            let next = ts[i + 1];
            lemma_first_char(ts, i + 1);
            assert(plain_token(next));
            assert(stay_apart(t, next));
            let c = core_text(next)[0];
            assert(s[e as int] == c);
            if let Lexeme::Ident(x) = next {
                assert(chars::in_class(CharClass::AsciiWord, x[0]));
            }
        }
    }
}

proof fn lemma_rest_reads_back(ts: Seq<Lexeme>, i: int, from: int)
    requires
        plain_tokens(ts),
        0 <= i <= ts.len(),
        0 <= from <= rust_expr_of(ts, i).len(),
        forall|j: int| from <= j < rust_expr_of(ts, i).len() ==> #[trigger] rust_expr(ts)[j] == ' ',
    ensures
        lexed_all(rust_expr(ts), from) == ts.skip(i),
    decreases ts.len() - i,
{
    let s = rust_expr(ts);
    let a = rust_expr_of(ts, i).len() as int;
    if i < ts.len() {
        lemma_token_place(ts, i);
        lemma_token_ends(ts, i);
        lemma_plain_token_read(s, from, a, ts[i]);
        let e = a + core_text(ts[i]).len();
        lemma_rest_reads_back(ts, i + 1, e);
        assert(ts.skip(i) =~= seq![ts[i]] + ts.skip(i + 1));
    } else {
        chars::lemma_run_ends_at(s, from, a, CharClass::Space);
        assert(ts.skip(i) =~= seq![]);
    }
}

/// Plain tokens that are written out and read again are the same tokens.
pub proof fn law_plain_tokens_read_back(ts: Seq<Lexeme>)
    requires
        plain_tokens(ts),
    ensures
        lexed_all(rust_expr(ts), 0) == ts,
{
    lemma_rest_reads_back(ts, 0, 0);
    assert(ts.skip(0) =~= ts);
}

// ---------------------------------------------------------------------------
// Commands and signs
// ---------------------------------------------------------------------------
proof fn lemma_group_skip(s: Seq<char>, k: int, p: int, depth: nat, held: Seq<char>)
    requires
        0 <= k <= p,
        k <= s.len(),
    ensures
        group_from(s, p, depth, held) == (
            group_from(s.skip(k), p - k, depth, held).0,
            group_from(s.skip(k), p - k, depth, held).1 + k,
        ),
    decreases s.len() - p,
{
    if p < s.len() {
        assert(s.skip(k)[p - k] == s[p]);
        if s[p] == '{' {
            lemma_group_skip(s, k, p + 1, depth + 1, held);
        } else if s[p] == '}' {
            if depth > 1 {
                lemma_group_skip(s, k, p + 1, (depth - 1) as nat, held);
            }
        } else {
            lemma_group_skip(s, k, p + 1, depth, held.push(s[p]));
        }
    }
}

/// What is read from a position does not depend on what stands before it.
#[verifier::rlimit(60)]
#[verifier::spinoff_prover]
proof fn lemma_lexed_skip(s: Seq<char>, k: int, from: int)
    requires
        0 <= k <= from <= s.len(),
    ensures
        lexed(s, from) == (lexed(s.skip(k), from - k).0, lexed(s.skip(k), from - k).1 + k),
    decreases s.len() - from, 1int,
{
    let t = s.skip(k);
    chars::lemma_run_end(s, from, CharClass::Space);
    chars::lemma_run_end_skip(s, k, from, CharClass::Space);
    let p = chars::run_end(s, from, CharClass::Space);
    if p < s.len() {
        assert(t[p - k] == s[p]);
        assert(char_at(s, p + 1) == char_at(t, p + 1 - k)) by {
            if p + 1 < s.len() {
                assert(t[p + 1 - k] == s[p + 1]);
            }
        }
        chars::lemma_run_end(s, p, CharClass::IdentTail);
        chars::lemma_run_end(s, p, CharClass::NumberTail);
        chars::lemma_run_end(s, p + 1, CharClass::NumberTail);
        chars::lemma_run_end(s, p + 1, CharClass::CommandTail);
        chars::lemma_run_end_skip(s, k, p, CharClass::IdentTail);
        chars::lemma_run_end_skip(s, k, p, CharClass::NumberTail);
        chars::lemma_run_end_skip(s, k, p + 1, CharClass::NumberTail);
        chars::lemma_run_end_skip(s, k, p + 1, CharClass::CommandTail);
        let e = chars::run_end(s, p + 1, CharClass::CommandTail);
        let i = chars::run_end(s, p, CharClass::IdentTail);
        let n = chars::run_end(s, p, CharClass::NumberTail);
        let o = chars::run_end(s, p + 1, CharClass::NumberTail);
        assert(s.subrange(p + 1, e) =~= t.subrange(p + 1 - k, e - k));
        assert(s.subrange(p, i) =~= t.subrange(p - k, i - k));
        assert(s.subrange(p, n) =~= t.subrange(p - k, n - k));
        assert(s.subrange(p, o) =~= t.subrange(p - k, o - k));
        assert(char_at(s, e) == char_at(t, e - k)) by {
            if e < s.len() {
                assert(t[e - k] == s[e]);
            }
        }
        lemma_group_skip(s, k, e + 1, 1, seq![]);
        let q = group_from(s, e + 1, 1, seq![]).1;
        lemma_lexed_after_skip(s, k, p, p + 1);
        lemma_lexed_after_skip(s, k, p, e);
        lemma_lexed_after_skip(s, k, p, e + 1);
        lemma_lexed_after_skip(s, k, p, q);
        lemma_lexed_after_skip(s, k, p, q + 1);
    }
}

proof fn lemma_lexed_after_skip(s: Seq<char>, k: int, p: int, q: int)
    requires
        0 <= k <= p < s.len(),
    ensures
        lexed_after(s, p, q) == (
            lexed_after(s.skip(k), p - k, q - k).0,
            lexed_after(s.skip(k), p - k, q - k).1 + k,
        ),
    decreases s.len() - p, 0int,
{
    let r = if q > s.len() {
        s.len() as int
    } else {
        q
    };
    if p < r {
        lemma_lexed_skip(s, k, r);
    }
}

/// All that is read from a position on is what is read from the rest of the text.
pub proof fn law_rest_is_read_by_itself(s: Seq<char>, k: int)
    requires
        0 <= k <= s.len(),
    ensures
        lexed_all(s, k) == lexed_all(s.skip(k), 0),
{
    lemma_all_skip(s, k, k);
}

proof fn lemma_all_skip(s: Seq<char>, k: int, from: int)
    requires
        0 <= k <= from <= s.len(),
    ensures
        lexed_all(s, from) == lexed_all(s.skip(k), from - k),
    decreases s.len() - from,
{
    lemma_lexed_skip(s, k, from);
    lemma_lexed_advances(s, from);
    if let (Some(_), q) = lexed(s, from) {
        lemma_all_skip(s, k, q);
    }
}

/// A command and the sign that means the same.
pub open spec fn means(cmd: Seq<char>, sign: Seq<char>) -> bool {
    ||| (cmd == "cdot"@ || cmd == "cdotp"@ || cmd == "times"@ || cmd == "ast"@) && sign == "*"@
    ||| cmd == "div"@ && sign == "/"@
    ||| (cmd == "leq"@ || cmd == "leqslant"@) && sign == "<="@
    ||| (cmd == "geq"@ || cmd == "geqslant"@) && sign == ">="@
    ||| cmd == "neq"@ && sign == "!="@
    ||| (cmd == "equiv"@ || cmd == "coloneqq"@ || cmd == "eqqcolon"@ || cmd == "iff"@) && sign == "=="@
    ||| cmd == "implies"@ && sign == "=>"@
    ||| cmd == "land"@ && sign == "&&"@
    ||| cmd == "lor"@ && sign == "||"@
}

proof fn lemma_command_names()
    ensures
        "cdot"@ =~= seq!['c', 'd', 'o', 't'],
        "land"@ =~= seq!['l', 'a', 'n', 'd'],
        "ast"@ =~= seq!['a', 's', 't'],
        "div"@ =~= seq!['d', 'i', 'v'],
        "leq"@ =~= seq!['l', 'e', 'q'],
        "geq"@ =~= seq!['g', 'e', 'q'],
        "neq"@ =~= seq!['n', 'e', 'q'],
        "iff"@ =~= seq!['i', 'f', 'f'],
        "lor"@ =~= seq!['l', 'o', 'r'],
        "neg"@ =~= seq!['n', 'e', 'g'],
        "cdotp"@ =~= seq!['c', 'd', 'o', 't', 'p'],
        "times"@ =~= seq!['t', 'i', 'm', 'e', 's'],
        "equiv"@ =~= seq!['e', 'q', 'u', 'i', 'v'],
        "implies"@ =~= seq!['i', 'm', 'p', 'l', 'i', 'e', 's'],
        "leqslant"@ =~= seq!['l', 'e', 'q', 's', 'l', 'a', 'n', 't'],
        "geqslant"@ =~= seq!['g', 'e', 'q', 's', 'l', 'a', 'n', 't'],
        "coloneqq"@ =~= seq!['c', 'o', 'l', 'o', 'n', 'e', 'q', 'q'],
        "eqqcolon"@ =~= seq!['e', 'q', 'q', 'c', 'o', 'l', 'o', 'n'],
{
    reveal_strlit("cdot");
    reveal_strlit("land");
    reveal_strlit("ast");
    reveal_strlit("div");
    reveal_strlit("leq");
    reveal_strlit("geq");
    reveal_strlit("neq");
    reveal_strlit("iff");
    reveal_strlit("lor");
    reveal_strlit("neg");
    reveal_strlit("cdotp");
    reveal_strlit("times");
    reveal_strlit("equiv");
    reveal_strlit("implies");
    reveal_strlit("leqslant");
    reveal_strlit("geqslant");
    reveal_strlit("coloneqq");
    reveal_strlit("eqqcolon");
}

proof fn lemma_command_means(cmd: Seq<char>, sign: Seq<char>)
    requires
        means(cmd, sign),
    ensures
        command_op(cmd) == Some(sign),
        forall|i: int| 0 <= i < cmd.len() ==> chars::ascii_letter(#[trigger] cmd[i]),
{
    lemma_command_names();
    assert(cmd.len() > 2);
    let a = cmd[0];
    let b = cmd[1];
    let c = cmd[2];
    assert(command_op(cmd) == Some(sign));
}

/// What stands behind a command or a sign is read the same way behind either.
proof fn lemma_read_behind(s: Seq<char>, t: Lexeme, e: int)
    requires
        0 < e <= s.len(),
        lexed(s, 0) == (Some(t), e),
    ensures
        lexed_all(s, 0) == seq![t] + lexed_all(s.skip(e), 0),
{
    law_rest_is_read_by_itself(s, e);
}

proof fn lemma_command_read(cmd: Seq<char>, sign: Seq<char>, rest: Seq<char>)
    requires
        means(cmd, sign),
    ensures
        lexed_all(seq!['\\'] + cmd + seq![' '] + rest, 0) == seq![Lexeme::Op(sign)] + lexed_all(
            seq![' '] + rest,
            0,
        ),
{
    let s = seq!['\\'] + cmd + seq![' '] + rest;
    let e = 1 + cmd.len() as int;
    lemma_command_means(cmd, sign);
    assert(s[0] == '\\');
    assert(s[e] == ' ');
    assert forall|i: int| 1 <= i < e implies chars::in_class(CharClass::CommandTail, #[trigger] s[i]) by {
        assert(s[i] == cmd[i - 1]);
    }
    chars::lemma_run_ends_at(s, 0, 0, CharClass::Space);
    chars::lemma_run_ends_at(s, 1, e, CharClass::CommandTail);
    assert(s.subrange(1, e) =~= cmd);
    assert(lexed(s, 0) == (Some(Lexeme::Op(sign)), e));
    lemma_read_behind(s, Lexeme::Op(sign), e);
    assert(s.skip(e) =~= seq![' '] + rest);
}

proof fn lemma_sign_read(cmd: Seq<char>, sign: Seq<char>, rest: Seq<char>)
    requires
        means(cmd, sign),
    ensures
        lexed_all(sign + seq![' '] + rest, 0) == seq![Lexeme::Op(sign)] + lexed_all(
            seq![' '] + rest,
            0,
        ),
{
    let s = sign + seq![' '] + rest;
    let e = sign.len() as int;
    lemma_operator_texts();
    assert(s[0] == sign[0]);
    assert(s[e] == ' ');
    if e == 2 {
        assert(s[1] == sign[1]);
    }
    chars::lemma_run_ends_at(s, 0, 0, CharClass::Space);
    assert(lexed(s, 0) == (Some(Lexeme::Op(sign)), e));
    lemma_read_behind(s, Lexeme::Op(sign), e);
    assert(s.skip(e) =~= seq![' '] + rest);
}

/// A command for an operator is read as the sign that means the same: whatever stands behind them, a
/// condition that begins with the one is read like a condition that begins with the other.
pub proof fn law_commands_are_read_as_their_signs(cmd: Seq<char>, sign: Seq<char>, rest: Seq<char>)
    requires
        means(cmd, sign),
    ensures
        lexed_all(seq!['\\'] + cmd + seq![' '] + rest, 0) == lexed_all(
            sign + seq![' '] + rest,
            0,
        ),
{
    lemma_command_read(cmd, sign, rest);
    lemma_sign_read(cmd, sign, rest);
}

/// A sign for an operator of two characters is read as itself, and a single equals sign as equality.
pub proof fn law_signs_are_read_as_themselves(sign: Seq<char>, rest: Seq<char>)
    requires
        operator(sign) || sign == "="@,
    ensures
        lexed_all(sign + seq![' '] + rest, 0) == seq![
            Lexeme::Op(
                if sign == "="@ {
                    "=="@
                } else {
                    sign
                },
            ),
        ] + lexed_all(seq![' '] + rest, 0),
{
    let s = sign + seq![' '] + rest;
    let e = sign.len() as int;
    let op = if sign == "="@ {
        "=="@
    } else {
        sign
    };
    lemma_operator_texts();
    reveal_strlit("=");
    assert("="@ =~= seq!['=']);
    assert(s[0] == sign[0]);
    assert(s[e] == ' ');
    if e == 2 {
        assert(s[1] == sign[1]);
    }
    chars::lemma_run_ends_at(s, 0, 0, CharClass::Space);
    assert(lexed(s, 0) == (Some(Lexeme::Op(op)), e));
    lemma_read_behind(s, Lexeme::Op(op), e);
    assert(s.skip(e) =~= seq![' '] + rest);
}

proof fn lemma_group(s: Seq<char>, p: int, name: Seq<char>, held: Seq<char>)
    requires
        0 <= p,
        p + name.len() < s.len(),
        s.subrange(p, p + name.len()) == name,
        s[p + name.len()] == '}',
        forall|i: int| 0 <= i < name.len() ==> #[trigger] name[i] != '{' && name[i] != '}',
    ensures
        group_from(s, p, 1, held) == (Some(held + name), p + name.len() + 1),
    decreases name.len(),
{
    if name.len() == 0 {
        assert(held + name =~= held);
    } else {
        assert(s.subrange(p, p + name.len())[0] == s[p]);
        let tail = name.skip(1);
        assert(s.subrange(p + 1, p + 1 + tail.len()) =~= s.subrange(p, p + name.len()).skip(1));
        lemma_group(s, p + 1, tail, held.push(s[p]));
        assert(held.push(s[p]) + tail =~= held + name);
    }
}

/// A name that a command sets in another font is read as the name.
pub proof fn law_fonts_do_not_matter(cmd: Seq<char>, name: Seq<char>, rest: Seq<char>)
    requires
        cmd == "text"@ || cmd == "mathrm"@ || cmd == "mathit"@ || cmd == "mathbf"@ || cmd
            == "mathsf"@,
        forall|i: int| 0 <= i < name.len() ==> #[trigger] name[i] != '{' && name[i] != '}',
    ensures
        lexed_all(seq!['\\'] + cmd + seq!['{'] + name + seq!['}'] + rest, 0) == seq![
            Lexeme::Ident(name),
        ] + lexed_all(rest, 0),
{
    let s = seq!['\\'] + cmd + seq!['{'] + name + seq!['}'] + rest;
    let e = 1 + cmd.len() as int;
    reveal_strlit("text");
    reveal_strlit("mathrm");
    reveal_strlit("mathit");
    reveal_strlit("mathbf");
    reveal_strlit("mathsf");
    assert(forall|i: int| 0 <= i < cmd.len() ==> chars::ascii_letter(#[trigger] cmd[i]));
    assert(s[0] == '\\');
    assert(s[e] == '{');
    assert forall|i: int| 1 <= i < e implies chars::in_class(CharClass::CommandTail, #[trigger] s[i]) by {
        assert(s[i] == cmd[i - 1]);
    }
    chars::lemma_run_ends_at(s, 0, 0, CharClass::Space);
    chars::lemma_run_ends_at(s, 1, e, CharClass::CommandTail);
    assert(s.subrange(1, e) =~= cmd);
    let q = e + 1 + name.len();
    assert(s.subrange(e + 1, q) =~= name);
    assert(s[q] == '}');
    lemma_group(s, e + 1, name, seq![]);
    assert(seq![] + name =~= name);
    assert(lexed(s, 0) == (Some(Lexeme::Ident(name)), q + 1));
    lemma_read_behind(s, Lexeme::Ident(name), q + 1);
    assert(s.skip(q + 1) =~= rest);
}

/// A bracket with a command for its size is read as the bracket.
pub proof fn law_sized_brackets_are_brackets(cmd: Seq<char>, bracket: char, rest: Seq<char>)
    requires
        cmd == "left"@ || cmd == "right"@,
        bracket == '(' || bracket == ')',
    ensures
        lexed_all(seq!['\\'] + cmd + seq![bracket] + rest, 0) == lexed_all(
            seq![bracket] + rest,
            0,
        ),
{
    let s = seq!['\\'] + cmd + seq![bracket] + rest;
    let u = seq![bracket] + rest;
    let e = 1 + cmd.len() as int;
    let t = if bracket == '(' {
        Lexeme::Lparen
    } else {
        Lexeme::Rparen
    };
    reveal_strlit("left");
    reveal_strlit("right");
    lemma_command_names();
    assert(forall|i: int| 0 <= i < cmd.len() ==> chars::ascii_letter(#[trigger] cmd[i]));
    assert(s[0] == '\\');
    assert(s[e] == bracket);
    assert forall|i: int| 1 <= i < e implies chars::in_class(CharClass::CommandTail, #[trigger] s[i]) by {
        assert(s[i] == cmd[i - 1]);
    }
    chars::lemma_run_ends_at(s, 0, 0, CharClass::Space);
    chars::lemma_run_ends_at(s, 1, e, CharClass::CommandTail);
    assert(s.subrange(1, e) =~= cmd);
    assert(cmd[0] == 'l' || cmd[0] == 'r');
    assert(cmd[1] == 'e' || cmd[1] == 'i');
    assert(cmd[2] == 'f' || cmd[2] == 'g');
    assert(command_op(cmd) is None);
    assert(lexed(s, 0) == (Some(t), e + 1));
    lemma_read_behind(s, t, e + 1);
    assert(s.skip(e + 1) =~= rest);
    chars::lemma_run_ends_at(u, 0, 0, CharClass::Space);
    assert(u[0] == bracket);
    assert(lexed(u, 0) == (Some(t), 1int));
    lemma_read_behind(u, t, 1);
    assert(u.skip(1) =~= rest);
}

} // verus!
