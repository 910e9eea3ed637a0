//! How the pieces of a specification are read: values of constants, formulas, and statements that
//! become conditions.
use vstd::prelude::*;
use crate::chars;
use crate::chars::trim;
use crate::numbers;
use crate::numbers::parse_unsigned;
use crate::patterns;
use crate::patterns::{captures, replace_all};
use crate::text;
use crate::text::{
    cat, cat3, contains, decimal_of, ends_with, find_pos, find_str, from_range, lines_of, replace,
    split, starts_with, to_chars,
};

verus! {

// ---------------------------------------------------------------------------
// Values of constants
// ---------------------------------------------------------------------------
/// `21*10^6*C`.
pub const SCALED_COINS: &'static str = r"^(\d+)\*10\^(\d+)\*C$";

/// `4*10^6`.
pub const SCALED: &'static str = r"^(\d+)\*10\^(\d+)$";

/// `10^8`.
pub const POWER: &'static str = r"^10\^(\d+)$";

/// Ten to the power `n`.
pub open spec fn ten_to(n: nat) -> nat
    decreases n,
{
    if n == 0 {
        1
    } else {
        10 * ten_to((n - 1) as nat)
    }
}

/// A text with an underscore before each group of three signs, counted from the end.
pub open spec fn grouped(s: Seq<char>) -> Seq<char>
    decreases s.len(),
{
    if s.len() <= 3 {
        s
    } else {
        grouped(s.take(s.len() - 3)) + "_"@ + s.skip(s.len() - 3)
    }
}

fn group_signs(v: &[char], n: usize) -> (r: String)
    requires
        n <= v@.len(),
    ensures
        r@ == grouped(v@.take(n as int)),
    decreases n,
{
    let ghost s = v@.take(n as int);
    if n <= 3 {
        proof {
            assert(v@.subrange(0, n as int) =~= s);
        }
        return from_range(v, 0, n);
    }
    let front = group_signs(v, n - 3);
    let back = from_range(v, n - 3, n);
    proof {
        assert(s.take(n - 3) =~= v@.take(n - 3));
        assert(s.skip(n - 3) =~= v@.subrange(n - 3, n as int));
    }
    cat3(front.as_str(), "_", back.as_str())
}

/// A number with an underscore before each group of three digits.
pub fn format_number_with_underscores(num: u64) -> (r: String)
    ensures
        r@ == grouped(text::decimal(num as nat)),
{
    let s = decimal_of(num as u128);
    let v = to_chars(s.as_str());
    proof {
        assert(v@.take(v@.len() as int) =~= v@);
    }
    group_signs(v.as_slice(), v.len())
}

/// Grouping adds underscores and nothing else: without them the text is what it was.
pub proof fn law_grouping_keeps_signs(s: Seq<char>)
    requires
        forall|i: int| 0 <= i < s.len() ==> s[i] != '_',
    ensures
        grouped(s).filter(|c: char| c != '_') == s,
    decreases s.len(),
{
    let keep = |c: char| c != '_';
    if s.len() <= 3 {
        lemma_filter_all(s, keep);
    } else {
        let front = s.take(s.len() - 3);
        let back = s.skip(s.len() - 3);
        law_grouping_keeps_signs(front);
        lemma_filter_all(back, keep);
        Seq::filter_distributes_over_add(grouped(front) + "_"@, back, keep);
        Seq::filter_distributes_over_add(grouped(front), "_"@, keep);
        assert("_"@.filter(keep) =~= seq![]) by {
            reveal_strlit("_");
            assert("_"@ =~= seq!['_']);
            reveal_with_fuel(Seq::filter, 2);
            assert(seq!['_'].drop_last() =~= seq![]);
        }
        assert(front + seq![] + back =~= s);
    }
}

proof fn lemma_filter_all(s: Seq<char>, keep: spec_fn(char) -> bool)
    requires
        forall|i: int| 0 <= i < s.len() ==> keep(#[trigger] s[i]),
    ensures
        s.filter(keep) == s,
    decreases s.len(),
{
    reveal(Seq::filter);
    if s.len() > 0 {
        lemma_filter_all(s.drop_last(), keep);
        assert(keep(s[s.len() - 1]));
        assert(s.drop_last().push(s.last()) =~= s);
    } else {
        assert(s.filter(keep) =~= s);
    }
}

/// The error on a value that is not understood.
pub open spec fn not_understood(value: Seq<char>) -> Seq<char> {
    "Could not parse constant value: "@ + value
}

/// The number that a base and an exponent of ten write, where it fits 64 bits.
pub open spec fn scaled_number(value: Seq<char>, base: Seq<char>, exponent: Seq<char>) -> Result<
    nat,
    Seq<char>,
> {
    match numbers::unsigned_up_to(base, 10, u64::MAX as nat) {
        None => Err("Invalid base: "@ + value),
        Some(b) => match numbers::unsigned_up_to(exponent, 10, u32::MAX as nat) {
            None => Err("Invalid exponent: "@ + value),
            Some(x) => if x > 19 || b * ten_to(x) > u64::MAX {
                Err(not_understood(value))
            } else {
                Ok(b * ten_to(x))
            },
        },
    }
}

/// A value with the signs of multiplication as `*` and without spaces.
pub open spec fn value_cleaned(value: Seq<char>) -> Seq<char> {
    chars::trimmed(
        text::replaced(
            text::replaced(text::replaced(value, r"\times"@, "*"@), "×"@, "*"@),
            " "@,
            ""@,
        ),
    )
}

/// The groups of a match, where there is one.
pub type Groups = Option<Seq<Option<Seq<char>>>>;

/// The type and the expression of a value, by what the three forms give on it. The most specific
/// form comes first.
pub open spec fn value_given(
    value: Seq<char>,
    cleaned: Seq<char>,
    coins: Groups,
    scaled: Groups,
    power: Groups,
) -> Result<(Seq<char>, Seq<char>), Seq<char>> {
    if coins is Some {
        match scaled_number(
            value,
            patterns::group_text(coins->0, 1),
            patterns::group_text(coins->0, 2),
        ) {
            Ok(n) => Ok(("i64"@, "("@ + grouped(text::decimal(n)) + " * C) as i64"@)),
            Err(e) => Err(e),
        }
    } else if scaled is Some {
        match scaled_number(
            value,
            patterns::group_text(scaled->0, 1),
            patterns::group_text(scaled->0, 2),
        ) {
            Ok(n) => Ok(("u64"@, grouped(text::decimal(n)))),
            Err(e) => Err(e),
        }
    } else if power is Some {
        match scaled_number(value, "1"@, patterns::group_text(power->0, 1)) {
            Ok(n) => Ok(("u64"@, grouped(text::decimal(n)))),
            Err(e) => Err(e),
        }
    } else {
        match numbers::unsigned_up_to(
            text::replaced(text::replaced(cleaned, ","@, ""@), "_"@, ""@),
            10,
            u64::MAX as nat,
        ) {
            Some(n) => Ok(("u64"@, grouped(text::decimal(n)))),
            None => Err(not_understood(value)),
        }
    }
}

/// The type and the expression of a value.
pub open spec fn constant_value(value: Seq<char>) -> Result<(Seq<char>, Seq<char>), Seq<char>> {
    let v = chars::trimmed(value);
    let c = value_cleaned(v);
    value_given(
        v,
        c,
        patterns::pattern_groups(SCALED_COINS@, c),
        patterns::pattern_groups(SCALED@, c),
        patterns::pattern_groups(POWER@, c),
    )
}

/// The groups of a match as mathematical values.
pub open spec fn groups_view(g: Option<Vec<Option<String>>>) -> Groups {
    match g {
        Some(v) => Some(patterns::group_views(v@)),
        None => None,
    }
}

/// Texts or an error, as mathematical values.
pub open spec fn pair_view(r: Result<(String, String), String>) -> Result<
    (Seq<char>, Seq<char>),
    Seq<char>,
> {
    match r {
        Ok((a, b)) => Ok((a@, b@)),
        Err(e) => Err(e@),
    }
}

fn power_of_ten(n: u32) -> (r: u64)
    requires
        n <= 19,
    ensures
        r == ten_to(n as nat),
{
    let mut p: u64 = 1;
    let mut i: u32 = 0;
    proof {
        lemma_ten_grows(n as nat, 19);
        assert(ten_to(19) == 10_000_000_000_000_000_000) by {
            reveal_with_fuel(ten_to, 20);
        }
    }
    while i < n
        invariant
            i <= n <= 19,
            p == ten_to(i as nat),
            ten_to(n as nat) <= 10_000_000_000_000_000_000,
        decreases n - i,
    {
        proof {
            lemma_ten_grows((i + 1) as nat, n as nat);
        }
        p = p * 10;
        i += 1;
    }
    p
}

proof fn lemma_ten_grows(a: nat, b: nat)
    requires
        a <= b,
    ensures
        ten_to(a) <= ten_to(b),
        ten_to(a) > 0,
    decreases b,
{
    if b > 0 {
        if a < b {
            lemma_ten_grows(a, (b - 1) as nat);
        } else {
            lemma_ten_grows((a - 1) as nat, (b - 1) as nat);
        }
    }
}

fn scale(value: &str, base: &str, exponent: &str) -> (r: Result<u64, String>)
    ensures
        match r {
            Ok(n) => scaled_number(value@, base@, exponent@) == Ok::<nat, Seq<char>>(n as nat),
            Err(e) => scaled_number(value@, base@, exponent@) == Err::<nat, Seq<char>>(e@),
        },
{
    let b = match parse_unsigned(base, 10, 0xffff_ffff_ffff_ffff) {
        Some(b) => b,
        None => {
            return Err(cat("Invalid base: ", value));
        },
    };
    let x = match parse_unsigned(exponent, 10, 0xffff_ffff) {
        Some(x) => x,
        None => {
            return Err(cat("Invalid exponent: ", value));
        },
    };
    if x > 19 {
        return Err(cat("Could not parse constant value: ", value));
    }
    let b: u64 = b as u64;
    let p = power_of_ten(x as u32);
    match b.checked_mul(p) {
        Some(n) => Ok(n),
        None => Err(cat("Could not parse constant value: ", value)),
    }
}

/// The text of a group, empty where the group took no part in the match.
pub fn text_in(g: &Vec<Option<String>>, i: usize) -> (r: String)
    ensures
        r@ == patterns::group_text(patterns::group_views(g@), i as int),
{
    if i < g.len() {
        proof {
            assert(patterns::group_views(g@)[i as int] == patterns::group_view(g@[i as int]));
        }
        if let Some(s) = &g[i] {
            return s.as_str().to_owned();
        }
    }
    let r = String::new();
    proof {
        assert(r@ =~= seq![]);
    }
    r
}

/// The type and the expression of a value, by what the three forms give on it.
pub fn constant_value_given(
    value: &str,
    cleaned: &str,
    coins: &Option<Vec<Option<String>>>,
    scaled: &Option<Vec<Option<String>>>,
    power: &Option<Vec<Option<String>>>,
) -> (r: Result<(String, String), String>)
    ensures
        pair_view(r) == value_given(
            value@,
            cleaned@,
            groups_view(*coins),
            groups_view(*scaled),
            groups_view(*power),
        ),
{
    if let Some(g) = coins {
        return match scale(value, text_in(g, 1).as_str(), text_in(g, 2).as_str()) {
            Ok(n) => {
                let digits = format_number_with_underscores(n);
                Ok(("i64".to_owned(), cat3("(", digits.as_str(), " * C) as i64")))
            },
            Err(e) => Err(e),
        };
    }
    if let Some(g) = scaled {
        return match scale(value, text_in(g, 1).as_str(), text_in(g, 2).as_str()) {
            Ok(n) => Ok(("u64".to_owned(), format_number_with_underscores(n))),
            Err(e) => Err(e),
        };
    }
    if let Some(g) = power {
        return match scale(value, "1", text_in(g, 1).as_str()) {
            Ok(n) => Ok(("u64".to_owned(), format_number_with_underscores(n))),
            Err(e) => Err(e),
        };
    }
    let bare = replace(replace(cleaned, ",", "").as_str(), "_", "");
    match parse_unsigned(bare.as_str(), 10, 0xffff_ffff_ffff_ffff) {
        Some(n) => Ok(("u64".to_owned(), format_number_with_underscores(n as u64))),
        None => Err(cat("Could not parse constant value: ", value)),
    }
}

/// The Rust type and the Rust expression of a value in mathematical notation.
pub fn parse_constant_value(value: &str) -> (r: Result<(String, String), String>)
    ensures
        pair_view(r) == constant_value(value@),
{
    let v = trim(value);
    let a = replace(v.as_str(), r"\times", "*");
    let b = replace(a.as_str(), "×", "*");
    let d = replace(b.as_str(), " ", "");
    let c = trim(d.as_str());
    let coins = captures(SCALED_COINS, c.as_str());
    let scaled = captures(SCALED, c.as_str());
    let power = captures(POWER, c.as_str());
    constant_value_given(v.as_str(), c.as_str(), &coins, &scaled, &power)
}

// ---------------------------------------------------------------------------
// Blocks of functions
// ---------------------------------------------------------------------------
/// Where the block of a function ends: at the first bold mark at or after `from` that opens neither
/// a list of properties nor a theorem.
pub open spec fn block_end(s: Seq<char>, from: int) -> int
    decreases s.len() + 1 - from,
{
    match text::find_from(s, "**"@, from) {
        Some(p) if 0 <= from <= p && p + 2 <= s.len() => {
            let after = s.skip(p + 2);
            if text::starts(after, "Properties**"@) && !text::starts(after, "Properties** ("@) {
                match text::find(after, ":"@) {
                    Some(c) if 0 <= c < after.len() => block_end(s, p + 2 + c + 1),
                    _ => block_end(s, p + 2),
                }
            } else if text::starts(after, "Theorem"@) && !text::starts(after, "Theorem** ("@) {
                match text::find(after, "**"@) {
                    Some(c) if 0 <= c && c + 2 <= after.len() => block_end(s, p + 2 + c + 2),
                    _ => block_end(s, p + 2),
                }
            } else {
                p
            }
        },
        _ => s.len() as int,
    }
}

proof fn lemma_block_end(s: Seq<char>, from: int)
    requires
        0 <= from <= s.len(),
    ensures
        from <= block_end(s, from) <= s.len(),
    decreases s.len() + 1 - from,
{
    match text::find_from(s, "**"@, from) {
        Some(p) if 0 <= from <= p && p + 2 <= s.len() => {
            let after = s.skip(p + 2);
            if text::starts(after, "Properties**"@) && !text::starts(after, "Properties** ("@) {
                match text::find(after, ":"@) {
                    Some(c) if 0 <= c < after.len() => lemma_block_end(s, p + 2 + c + 1),
                    _ => lemma_block_end(s, p + 2),
                }
            } else if text::starts(after, "Theorem"@) && !text::starts(after, "Theorem** ("@) {
                match text::find(after, "**"@) {
                    Some(c) if 0 <= c && c + 2 <= after.len() => lemma_block_end(s, p + 2 + c + 2),
                    _ => lemma_block_end(s, p + 2),
                }
            }
        },
        _ => {},
    }
}

/// Where the block of a function ends.
pub fn find_next_function_boundary(content: &str) -> (r: usize)
    ensures
        r == block_end(content@, 0),
        r <= content@.len(),
{
    let v = to_chars(content);
    let stars = to_chars("**");
    let ghost s = content@;
    let mut from: usize = 0;
    proof {
        reveal_strlit("**");
        reveal_strlit(":");
        lemma_block_end(s, 0);
    }
    loop
        invariant
            s == content@,
            v@ == s,
            stars@ == "**"@,
            "**"@.len() == 2,
            ":"@.len() == 1,
            from <= s.len(),
            block_end(s, 0) == block_end(s, from as int),
            block_end(s, 0) <= s.len(),
        decreases s.len() + 1 - from,
    {
        let p: usize = match find_pos(v.as_slice(), stars.as_slice(), from) {
            Some(p) => p,
            None => {
                return v.len();
            },
        };
        proof {
            text::lemma_find_from(s, "**"@, from as int);
        }
        let n: usize = v.len();
        let after = from_range(v.as_slice(), p + 2, n);
        proof {
            assert(s.subrange(p + 2, s.len() as int) =~= s.skip(p + 2));
        }
        let a = after.as_str();
        if starts_with(a, "Properties**") && !starts_with(a, "Properties** (") {
            match find_str(a, ":") {
                Some(c) => {
                    proof {
                        text::lemma_find_from(after@, ":"@, 0);
                    }
                    from = p + 2 + c + 1;
                },
                None => {
                    from = p + 2;
                },
            }
        } else if starts_with(a, "Theorem") && !starts_with(a, "Theorem** (") {
            match find_str(a, "**") {
                Some(c) => {
                    proof {
                        text::lemma_find_from(after@, "**"@, 0);
                    }
                    from = p + 2 + c + 2;
                },
                None => {
                    from = p + 2;
                },
            }
        } else {
            return p;
        }
    }
}

// ---------------------------------------------------------------------------
// Formulas
// ---------------------------------------------------------------------------
/// The parts with odd numbers among the first `n`, each but the first behind a line feed.
pub open spec fn odd_parts(parts: Seq<Seq<char>>, n: int) -> Seq<char>
    decreases n,
{
    if n <= 0 || n > parts.len() {
        seq![]
    } else {
        let done = odd_parts(parts, n - 1);
        if (n - 1) % 2 == 1 {
            (if done.len() > 0 {
                done + "\n"@
            } else {
                done
            }) + parts[n - 1]
        } else {
            done
        }
    }
}

/// What stands between the dollar signs of a formula.
pub open spec fn formula_cleaned(formula: Seq<char>) -> Seq<char> {
    let parts = text::parts(formula, "$$"@);
    if parts.len() >= 2 {
        chars::trimmed(odd_parts(parts, parts.len() as int))
    } else {
        chars::trimmed(formula)
    }
}

/// What stands between the dollar signs of a formula.
pub fn clean_formula(formula: &str) -> (r: String)
    ensures
        r@ == formula_cleaned(formula@),
{
    proof {
        reveal_strlit("$$");
        reveal_strlit("");
    }
    let parts = split(formula, "$$");
    if parts.len() < 2 {
        proof {
            assert(text::views(parts@).len() == parts@.len());
        }
        return trim(formula);
    }
    let mut cleaned = String::new();
    let mut i: usize = 0;
    let mut empty = true;
    proof {
        assert(cleaned@ =~= seq![]);
    }
    while i < parts.len()
        invariant
            i <= parts.len(),
            cleaned@ == odd_parts(text::views(parts@), i as int),
            empty == (cleaned@.len() == 0),
            ""@.len() == 0,
        decreases parts.len() - i,
    {
        proof {
            assert(text::views(parts@)[i as int] == parts@[i as int]@);
            assert(text::views(parts@).len() == parts@.len());
        }
        if i % 2 == 1 {
            if !empty {
                cleaned = cat(cleaned.as_str(), "\n");
            }
            cleaned = cat(cleaned.as_str(), parts[i].as_str());
            empty = crate::text::same(cleaned.as_str(), "");
            proof {
                assert(cleaned@.len() == 0 ==> cleaned@ =~= ""@);
            }
        }
        i += 1;
    }
    proof {
        assert(text::views(parts@).len() == parts@.len());
    }
    trim(cleaned.as_str())
}

/// Whether a formula is about the function `name`.
pub open spec fn formula_about(formula: Seq<char>, name: Seq<char>) -> bool {
    text::holds(formula, r"\text{"@ + name + "}"@) || text::holds(formula, name) || (text::holds(
        formula,
        "GetBlockSubsidy"@,
    ) && text::holds(name, "Subsidy"@)) || (text::holds(formula, "TotalSupply"@) && text::holds(
        name,
        "Supply"@,
    ))
}

fn is_formula_about(formula: &str, name: &str) -> (r: bool)
    ensures
        r == formula_about(formula@, name@),
{
    let latex = cat3(r"\text{", name, "}");
    contains(formula, latex.as_str()) || contains(formula, name) || (contains(
        formula,
        "GetBlockSubsidy",
    ) && contains(name, "Subsidy")) || (contains(formula, "TotalSupply") && contains(name, "Supply"))
}

/// The first formula about `name` in the lines from `i` on, where `open` is what was read of a
/// formula so far, and of how many lines. A formula goes from a line with dollar signs to the next
/// such line, and is given up after ten lines.
pub open spec fn formula_from(
    lines: Seq<Seq<char>>,
    i: int,
    open: Option<(Seq<char>, nat)>,
    name: Seq<char>,
) -> Option<Seq<char>>
    decreases lines.len() - i,
{
    if i < 0 || i >= lines.len() {
        None
    } else if text::holds(lines[i], "$$"@) {
        match open {
            None => formula_from(lines, i + 1, Some((lines[i], 1)), name),
            Some((t, _)) => {
                let whole = t + "\n"@ + lines[i];
                if formula_about(whole, name) {
                    Some(formula_cleaned(whole))
                } else {
                    formula_from(lines, i + 1, None, name)
                }
            },
        }
    } else {
        match open {
            Some((t, n)) => if n < 10 {
                formula_from(lines, i + 1, Some((t + "\n"@ + lines[i], n + 1)), name)
            } else {
                formula_from(lines, i + 1, None, name)
            },
            None => formula_from(lines, i + 1, None, name),
        }
    }
}

/// The formula about `name` in a section.
pub fn extract_formula(content: &str, name: &str) -> (r: Option<String>)
    ensures
        patterns::group_view(r) == formula_from(text::lines(content@), 0, None, name@),
{
    let lines = lines_of(content);
    let ghost lv = text::lines(content@);
    let mut open: Option<(String, usize)> = None;
    let mut i: usize = 0;
    while i < lines.len()
        invariant
            i <= lines.len(),
            lv == text::views(lines@),
            lv == text::lines(content@),
            open matches Some((_, n)) ==> n <= 10,
            formula_from(lv, 0, None, name@) == formula_from(
                lv,
                i as int,
                match open {
                    Some((t, n)) => Some((t@, n as nat)),
                    None => None,
                },
                name@,
            ),
        decreases lines.len() - i,
    {
        proof {
            assert(lv[i as int] == lines@[i as int]@);
        }
        let line = lines[i].as_str();
        let marked = contains(line, "$$");
        open = match open {
            None => {
                if marked {
                    Some((line.to_owned(), 1))
                } else {
                    None
                }
            },
            Some((t, n)) => {
                if marked {
                    let whole = cat3(t.as_str(), "\n", line);
                    if is_formula_about(whole.as_str(), name) {
                        return Some(clean_formula(whole.as_str()));
                    }
                    None
                } else if n < 10 {
                    Some((cat3(t.as_str(), "\n", line), n + 1))
                } else {
                    None
                }
            },
        };
        i += 1;
    }
    None
}

// ---------------------------------------------------------------------------
// Statements
// ---------------------------------------------------------------------------
/// `|x|`, the number of elements.
pub const CARDINALITY: &'static str = r"\|([a-zA-Z_][a-zA-Z0-9_]*)\|";

/// A statement with the function that it is about named `result`.
pub open spec fn with_result(statement: Seq<char>, name: Seq<char>) -> Seq<char> {
    text::replaced(
        text::replaced(
            text::replaced(statement, r"\text{"@ + name + "}"@, "result"@),
            r"\\text{"@ + name + "}"@,
            "result"@,
        ),
        name,
        "result"@,
    )
}

/// A statement with the signs of comparison and implication of Rust.
pub open spec fn with_rust_signs(s: Seq<char>) -> Seq<char> {
    text::replaced(
        text::replaced(
            text::replaced(
                text::replaced(text::replaced(s, "≥"@, ">="@), "≤"@, "<="@),
                "≠"@,
                "!="@,
            ),
            "⟹"@,
            "=>"@,
        ),
        r"\land"@,
        " & "@,
    )
}

/// What an implication concludes, where there is one arrow with something behind it.
pub open spec fn conclusion(s: Seq<char>) -> Seq<char> {
    match text::find(s, "=>"@) {
        Some(p) => {
            let after = chars::trimmed(s.skip(p + 2));
            if after.len() > 0 && !text::holds(after, "=>"@) {
                after
            } else {
                s
            }
        },
        None => s,
    }
}

/// A statement with `==` for the equals sign that stands free, at the start or at the end.
pub open spec fn with_rust_equality(s: Seq<char>) -> Seq<char> {
    let a = text::replaced(s, " = "@, " == "@);
    let b = if text::starts(a, "= "@) {
        "== "@ + a.skip(2)
    } else {
        a
    };
    if text::ends(b, " ="@) {
        b.take(b.len() - 2) + " =="@
    } else {
        b
    }
}

/// A statement with the names that the code uses for the common variables.
pub open spec fn with_rust_names(s: Seq<char>) -> Seq<char> {
    let a = text::replaced(s, " h "@, " height "@);
    let b = text::replaced(a, "(h)"@, "(height)"@);
    let c = text::replaced(b, " h,"@, " height,"@);
    let d = text::replaced(c, " h)"@, " height)"@);
    let e = text::replaced(d, " H "@, " HALVING_INTERVAL "@);
    let f = text::replaced(e, "(H)"@, "(HALVING_INTERVAL)"@);
    let g = text::replaced(f, " C "@, " SATOSHIS_PER_BTC "@);
    text::replaced(g, "(C)"@, "(SATOSHIS_PER_BTC)"@)
}

/// A statement without the marks of the formula language.
pub open spec fn without_marks(s: Seq<char>) -> Seq<char> {
    text::replaced(
        text::replaced(
            text::replaced(text::replaced(s, "$"@, ""@), r"\text{"@, ""@),
            r"\{"@,
            "{"@,
        ),
        r"\}"@,
        "}"@,
    )
}

/// A statement up to the numbers of elements.
pub open spec fn compared(statement: Seq<char>, name: Seq<char>) -> Seq<char> {
    with_rust_equality(conclusion(with_rust_signs(with_result(statement, name))))
}

/// The condition that a statement about `name` becomes.
pub open spec fn condition_of(statement: Seq<char>, name: Seq<char>) -> Seq<char> {
    without_marks(
        with_rust_names(
            patterns::pattern_replaced(CARDINALITY@, compared(statement, name), "${1}.len()"@),
        ),
    )
}

fn conclude(s: &str) -> (r: String)
    ensures
        r@ == conclusion(s@),
{
    proof {
        reveal_strlit("=>");
        reveal_strlit("");
    }
    if let Some(p) = find_str(s, "=>") {
        proof {
            text::lemma_find_from(s@, "=>"@, 0);
            assert(s@.subrange(p + 2, s@.len() as int) =~= s@.skip(p + 2));
        }
        let v = to_chars(s);
        let rest = from_range(v.as_slice(), p + 2, v.len());
        let after = trim(rest.as_str());
        let empty = crate::text::same(after.as_str(), "");
        proof {
            assert(after@.len() == 0 ==> after@ =~= ""@);
        }
        if !empty && !contains(after.as_str(), "=>") {
            return after;
        }
    }
    s.to_owned()
}

fn equate(s: &str) -> (r: String)
    ensures
        r@ == with_rust_equality(s@),
{
    proof {
        reveal_strlit("= ");
        reveal_strlit(" =");
    }
    let a = replace(s, " = ", " == ");
    let b = if starts_with(a.as_str(), "= ") {
        let v = to_chars(a.as_str());
        let rest = from_range(v.as_slice(), 2, v.len());
        proof {
            assert(a@.subrange(2, a@.len() as int) =~= a@.skip(2));
        }
        cat("== ", rest.as_str())
    } else {
        a
    };
    if ends_with(b.as_str(), " =") {
        let v = to_chars(b.as_str());
        let front = from_range(v.as_slice(), 0, v.len() - 2);
        proof {
            assert(b@.subrange(0, b@.len() - 2) =~= b@.take(b@.len() - 2));
        }
        cat(front.as_str(), " ==")
    } else {
        b
    }
}

/// A statement with the names of the code and without the marks of the formula language.
pub fn finish_statement(s: &str) -> (r: String)
    ensures
        r@ == without_marks(with_rust_names(s@)),
{
    let a = replace(s, " h ", " height ");
    let b = replace(a.as_str(), "(h)", "(height)");
    let c = replace(b.as_str(), " h,", " height,");
    let d = replace(c.as_str(), " h)", " height)");
    let e = replace(d.as_str(), " H ", " HALVING_INTERVAL ");
    let f = replace(e.as_str(), "(H)", "(HALVING_INTERVAL)");
    let g = replace(f.as_str(), " C ", " SATOSHIS_PER_BTC ");
    let h = replace(g.as_str(), "(C)", "(SATOSHIS_PER_BTC)");
    let i = replace(h.as_str(), "$", "");
    let j = replace(i.as_str(), r"\text{", "");
    let k = replace(j.as_str(), r"\{", "{");
    replace(k.as_str(), r"\}", "}")
}

/// A statement up to the numbers of elements.
pub fn start_statement(statement: &str, name: &str) -> (r: String)
    ensures
        r@ == compared(statement@, name@),
{
    let latex = cat3(r"\text{", name, "}");
    let escaped = cat3(r"\\text{", name, "}");
    let a = replace(statement, latex.as_str(), "result");
    let b = replace(a.as_str(), escaped.as_str(), "result");
    let c = replace(b.as_str(), name, "result");
    let d = replace(c.as_str(), "≥", ">=");
    let e = replace(d.as_str(), "≤", "<=");
    let f = replace(e.as_str(), "≠", "!=");
    let g = replace(f.as_str(), "⟹", "=>");
    let h = replace(g.as_str(), r"\land", " & ");
    let i = conclude(h.as_str());
    equate(i.as_str())
}

/// The condition that a statement about `name` becomes.
pub fn translate_property_to_rust(statement: &str, name: &str) -> (r: String)
    ensures
        r@ == condition_of(statement@, name@),
{
    let a = start_statement(statement, name);
    let b = replace_all(CARDINALITY, a.as_str(), "${1}.len()");
    finish_statement(b.as_str())
}

// ---------------------------------------------------------------------------
// What statements become
// ---------------------------------------------------------------------------
/// A sign of comparison or implication as Rust writes it.
pub open spec fn sign_in_rust(c: char) -> Seq<char> {
    if c == '≥' {
        seq!['>', '=']
    } else if c == '≤' {
        seq!['<', '=']
    } else if c == '≠' {
        seq!['!', '=']
    } else if c == '⟹' {
        seq!['=', '>']
    } else {
        seq![c]
    }
}

/// Each sign of comparison and implication in a statement becomes the one of the same meaning in Rust,
/// and nothing else changes but that `\land` becomes `&`.
pub proof fn law_signs_keep_their_meaning(s: Seq<char>)
    ensures
        with_rust_signs(s) == text::replaced(
            text::mapped(s, |c: char| sign_in_rust(c)),
            "\\land"@,
            " & "@,
        ),
{
    reveal_strlit("≥");
    reveal_strlit("≤");
    reveal_strlit("≠");
    reveal_strlit("⟹");
    reveal_strlit(">=");
    reveal_strlit("<=");
    reveal_strlit("!=");
    reveal_strlit("=>");
    assert("≥"@ =~= seq!['≥'] && "≤"@ =~= seq!['≤'] && "≠"@ =~= seq!['≠'] && "⟹"@ =~= seq!['⟹']);
    assert(">="@ =~= seq!['>', '='] && "<="@ =~= seq!['<', '='] && "!="@ =~= seq!['!', '=']
        && "=>"@ =~= seq!['=', '>']);
    let f = text::one_becomes('≥', ">="@);
    let g = text::one_becomes('≤', "<="@);
    let h = text::one_becomes('≠', "!="@);
    let k = text::one_becomes('⟹', "=>"@);
    let fg = |c: char|
        if c == '≥' {
            seq!['>', '=']
        } else if c == '≤' {
            seq!['<', '=']
        } else {
            seq![c]
        };
    let fgh = |c: char|
        if c == '≠' {
            seq!['!', '=']
        } else {
            fg(c)
        };
    let all = |c: char| sign_in_rust(c);
    text::lemma_replaced_sign(s, "≥"@, ">="@);
    let a = text::mapped(s, f);
    text::lemma_replaced_sign(a, "≤"@, "<="@);
    assert forall|c: char| #[trigger] fg(c) == text::mapped(f(c), g) by {
        text::lemma_mapped_short(c, c, g);
        text::lemma_mapped_short('>', '=', g);
        assert(seq!['>'] + seq!['='] =~= seq!['>', '=']);
    }
    text::lemma_mapped_twice(s, f, g, fg);
    let b = text::mapped(s, fg);
    text::lemma_replaced_sign(b, "≠"@, "!="@);
    assert forall|c: char| #[trigger] fgh(c) == text::mapped(fg(c), h) by {
        text::lemma_mapped_short(c, c, h);
        text::lemma_mapped_short('>', '=', h);
        text::lemma_mapped_short('<', '=', h);
        assert(seq!['>'] + seq!['='] =~= seq!['>', '=']);
        assert(seq!['<'] + seq!['='] =~= seq!['<', '=']);
    }
    text::lemma_mapped_twice(s, fg, h, fgh);
    let d = text::mapped(s, fgh);
    text::lemma_replaced_sign(d, "⟹"@, "=>"@);
    assert forall|c: char| #[trigger] all(c) == text::mapped(fgh(c), k) by {
        text::lemma_mapped_short(c, c, k);
        text::lemma_mapped_short('>', '=', k);
        text::lemma_mapped_short('<', '=', k);
        text::lemma_mapped_short('!', '=', k);
        assert(seq!['>'] + seq!['='] =~= seq!['>', '=']);
        assert(seq!['<'] + seq!['='] =~= seq!['<', '=']);
        assert(seq!['!'] + seq!['='] =~= seq!['!', '=']);
    }
    text::lemma_mapped_twice(s, fgh, k, all);
}

/// A part of a statement without signs of comparison and implication, and without commands.
pub open spec fn without_signs(s: Seq<char>) -> bool {
    forall|i: int|
        0 <= i < s.len() ==> (#[trigger] s[i]) != '=' && s[i] != '>' && s[i] != '\\' && sign_in_rust(
            s[i],
        ) == seq![s[i]]
}

proof fn lemma_signs_of_comparison(a: Seq<char>, sign: char, b: Seq<char>)
    requires
        without_signs(a),
        without_signs(b),
        sign == '≥' || sign == '≤' || sign == '≠',
    ensures
        with_rust_signs(a + seq![sign] + b) == a + sign_in_rust(sign) + b,
        with_rust_signs(a + sign_in_rust(sign) + b) == a + sign_in_rust(sign) + b,
{
    let f = |c: char| sign_in_rust(c);
    let r = sign_in_rust(sign);
    let w = a + r + b;
    law_signs_keep_their_meaning(a + seq![sign] + b);
    law_signs_keep_their_meaning(w);
    text::lemma_mapped_both(a + seq![sign], b, f);
    text::lemma_mapped_both(a, seq![sign], f);
    text::lemma_mapped_short(sign, sign, f);
    text::lemma_mapped_stays(a, f);
    text::lemma_mapped_stays(b, f);
    text::lemma_mapped_both(a + r, b, f);
    text::lemma_mapped_both(a, r, f);
    assert(forall|i: int| 0 <= i < r.len() ==> f(#[trigger] r[i]) == seq![r[i]]);
    text::lemma_mapped_stays(r, f);
    reveal_strlit("\\land");
    assert forall|i: int| 0 <= i < w.len() implies w[i] != '\\' by {
        if i < a.len() {
            assert(w[i] == a[i]);
        } else if i >= a.len() + 2 {
            assert(w[i] == b[i - a.len() - 2]);
        }
    }
    text::lemma_lacks(w, "\\land"@, 0);
    text::lemma_absent(w, "\\land"@, " & "@);
}

proof fn lemma_comparison_is_done(a: Seq<char>, r: Seq<char>, b: Seq<char>)
    requires
        without_signs(a),
        without_signs(b),
        r.len() == 2,
        r[0] != '=',
        r[0] != ' ',
        r[1] == '=',
    ensures
        with_rust_equality(conclusion(a + r + b)) == a + r + b,
{
    let w = a + r + b;
    let n = a.len() as int;
    reveal_strlit("=>");
    reveal_strlit(" = ");
    reveal_strlit("= ");
    reveal_strlit(" =");
    assert forall|i: int| 0 <= i < w.len() && #[trigger] w[i] == '=' implies i == n + 1 by {
        if i < n {
            assert(w[i] == a[i]);
        } else if i >= n + 2 {
            assert(w[i] == b[i - n - 2]);
        }
    }
    assert(w[n] == r[0]);
    if n + 2 < w.len() {
        assert(w[n + 2] == b[0]);
    }
    if text::holds(w, "=>"@) {
        let i = choose|i: int| text::occurs_at(w, "=>"@, i);
        assert(w.subrange(i, i + 2)[0] == w[i]);
        assert(w.subrange(i, i + 2)[1] == w[i + 1]);
    }
    text::lemma_find_has(w, "=>"@);
    assert(conclusion(w) == w);
    if text::holds(w, " = "@) {
        let i = choose|i: int| text::occurs_at(w, " = "@, i);
        assert(w.subrange(i, i + 3)[0] == w[i]);
        assert(w.subrange(i, i + 3)[1] == w[i + 1]);
    }
    text::lemma_absent(w, " = "@, " == "@);
    if text::starts(w, "= "@) {
        assert(w.take(2)[0] == w[0]);
    }
    if text::ends(w, " ="@) {
        assert(w.skip(w.len() - 2)[0] == w[w.len() - 2]);
        assert(w.skip(w.len() - 2)[1] == w[w.len() - 1]);
    }
}

/// A statement that compares by one sign becomes the comparison of the same meaning in Rust: `≥`
/// becomes `>=`, `≤` becomes `<=` and `≠` becomes `!=`, and what is written so already stays.
pub proof fn law_comparison_keeps_its_sense(
    statement: Seq<char>,
    name: Seq<char>,
    a: Seq<char>,
    sign: char,
    b: Seq<char>,
)
    requires
        without_signs(a),
        without_signs(b),
        sign == '≥' || sign == '≤' || sign == '≠',
        with_result(statement, name) == a + seq![sign] + b || with_result(statement, name) == a
            + sign_in_rust(sign) + b,
    ensures
        sign == '≥' ==> compared(statement, name) == a + seq!['>', '='] + b,
        sign == '≤' ==> compared(statement, name) == a + seq!['<', '='] + b,
        sign == '≠' ==> compared(statement, name) == a + seq!['!', '='] + b,
{
    lemma_signs_of_comparison(a, sign, b);
    lemma_comparison_is_done(a, sign_in_rust(sign), b);
}

/// Statements that differ in the sense of their comparison become different conditions.
pub proof fn law_opposite_comparisons_differ(
    statement: Seq<char>,
    other: Seq<char>,
    name: Seq<char>,
    a: Seq<char>,
    b: Seq<char>,
)
    requires
        without_signs(a),
        without_signs(b),
        with_result(statement, name) == a + seq!['≥'] + b,
        with_result(other, name) == a + seq!['≤'] + b,
    ensures
        compared(statement, name) != compared(other, name),
{
    law_comparison_keeps_its_sense(statement, name, a, '≥', b);
    law_comparison_keeps_its_sense(other, name, a, '≤', b);
    let n = a.len() as int;
    assert(compared(statement, name)[n] == '>');
    assert(compared(other, name)[n] == '<');
}

/// An implication is read as what stands behind its arrow.
pub proof fn law_conclusion_stands_behind_the_arrow(a: Seq<char>, b: Seq<char>)
    requires
        forall|i: int| 0 <= i < a.len() ==> a[i] != '=',
        chars::trimmed(b).len() > 0,
        !text::holds(chars::trimmed(b), "=>"@),
    ensures
        conclusion(a + "=>"@ + b) == chars::trimmed(b),
{
    reveal_strlit("=>");
    let p = "=>"@;
    let s = a + p + b;
    let n = a.len() as int;
    assert(s.subrange(n, n + 2) =~= p);
    assert(text::occurs_at(s, p, n));
    text::lemma_find_has(s, p);
    text::lemma_find_from(s, p, 0);
    let i = text::find(s, p)->0;
    if i < n {
        assert(s.subrange(i, i + 2)[0] == s[i]);
        assert(s[i] == a[i]);
    }
    assert(s.skip(n + 2) =~= b);
}

/// A free equals sign is read as the comparison for equality.
pub proof fn law_free_equals_sign_is_equality(a: Seq<char>, b: Seq<char>)
    requires
        forall|i: int| 0 <= i < a.len() ==> a[i] != '=',
        forall|i: int| 0 <= i < b.len() ==> b[i] != '=',
    ensures
        with_rust_equality(a + " = "@ + b) == a + " == "@ + b,
{
    reveal_strlit(" = ");
    reveal_strlit(" == ");
    reveal_strlit("= ");
    reveal_strlit(" =");
    text::lemma_replaced_once(a, " = "@, b, " == "@, 1);
    let w = a + " == "@ + b;
    if text::starts(w, "= "@) {
        assert(w.take(2)[0] == w[0]);
    }
    if text::ends(w, " ="@) {
        assert(w.skip(w.len() - 2)[1] == w[w.len() - 1]);
        if b.len() > 0 {
            assert(w[w.len() - 1] == b[b.len() - 1]);
        }
    }
}

/// A value that is a plain number is that number.
pub proof fn law_plain_value_is_its_number(value: Seq<char>, n: nat)
    ensures
        value_given(value, text::decimal(n), None, None, None) == if n <= u64::MAX {
            Ok::<(Seq<char>, Seq<char>), Seq<char>>(("u64"@, grouped(text::decimal(n))))
        } else {
            Err(not_understood(value))
        },
{
    reveal_strlit(",");
    reveal_strlit("_");
    let s = text::decimal(n);
    numbers::law_decimal_is_read_back(n, u64::MAX as nat);
    text::lemma_lacks(s, ","@, 0);
    text::lemma_absent(s, ","@, ""@);
    text::lemma_lacks(s, "_"@, 0);
    text::lemma_absent(s, "_"@, ""@);
}

/// Each step of the exponent makes a value ten times as large, and without an exponent it is its
/// base; what 64 bits do not hold is refused.
pub proof fn law_exponents_scale_by_ten(value: Seq<char>, base: nat, x: nat)
    requires
        base <= u64::MAX,
        x < 19,
    ensures
        scaled_number(value, text::decimal(base), text::decimal(0)) == Ok::<nat, Seq<char>>(base),
        scaled_number(value, text::decimal(base), text::decimal(x + 1)) == match scaled_number(
            value,
            text::decimal(base),
            text::decimal(x),
        ) {
            Ok(n) => if 10 * n <= u64::MAX {
                Ok(10 * n)
            } else {
                Err(not_understood(value))
            },
            Err(e) => Err(not_understood(value)),
        },
{
    numbers::law_decimal_is_read_back(base, u64::MAX as nat);
    numbers::law_decimal_is_read_back(0, u32::MAX as nat);
    numbers::law_decimal_is_read_back(x, u32::MAX as nat);
    numbers::law_decimal_is_read_back(x + 1, u32::MAX as nat);
    let t = ten_to(x);
    assert(ten_to(x + 1) == 10 * t);
    assert(base * (10 * t) == 10 * (base * t)) by (nonlinear_arith);
    assert(ten_to(0) == 1);
    assert(base * 1 == base) by (nonlinear_arith);
    assert(0 <= base * t) by (nonlinear_arith)
        requires
            0 <= base,
            0 <= t,
    ;
}

/// The function that a statement is about is named `result` in its condition, whether its name
/// stands in a command for text or by itself.
pub proof fn law_function_becomes_the_result(a: Seq<char>, name: Seq<char>, b: Seq<char>, k: int)
    requires
        0 <= k < name.len(),
        forall|i: int| 0 <= i < name.len() && i != k ==> #[trigger] name[i] != name[k],
        forall|i: int| 0 <= i < name.len() ==> name[i] != '\\',
        forall|i: int| 0 <= i < a.len() ==> #[trigger] a[i] != '\\' && a[i] != name[k],
        forall|i: int| 0 <= i < b.len() ==> #[trigger] b[i] != '\\' && b[i] != name[k],
        forall|i: int| 0 <= i < 6 ==> "result"@[i] != name[k],
    ensures
        with_result(a + (r"\text{"@ + name + "}"@) + b, name) == a + "result"@ + b,
        with_result(a + name + b, name) == a + "result"@ + b,
{
    reveal_strlit(r"\text{");
    reveal_strlit(r"\\text{");
    reveal_strlit("}");
    reveal_strlit("result");
    let p = r"\text{"@ + name + "}"@;
    let q = r"\\text{"@ + name + "}"@;
    let w = a + "result"@ + b;
    let t = a + name + b;
    assert(p[0] == '\\' && q[0] == '\\');
    assert forall|i: int| 0 <= i < p.len() && i != 0 implies #[trigger] p[i] != p[0] by {
        if 6 <= i < 6 + name.len() {
            assert(p[i] == name[i - 6]);
        }
    }
    text::lemma_replaced_once(a, p, b, "result"@, 0);
    let n = a.len() as int;
    assert forall|i: int| 0 <= i < w.len() implies #[trigger] w[i] != '\\' && w[i] != name[k] by {
        if i < n {
            assert(w[i] == a[i]);
        } else if i < n + 6 {
            assert(w[i] == "result"@[i - n]);
        } else {
            assert(w[i] == b[i - n - 6]);
        }
    }
    text::lemma_lacks(w, q, 0);
    text::lemma_absent(w, q, "result"@);
    text::lemma_lacks(w, name, k);
    text::lemma_absent(w, name, "result"@);
    assert forall|i: int| 0 <= i < t.len() implies #[trigger] t[i] != '\\' by {
        if i < n {
            assert(t[i] == a[i]);
        } else if i < n + name.len() {
            assert(t[i] == name[i - n]);
        } else {
            assert(t[i] == b[i - n - name.len()]);
        }
    }
    text::lemma_lacks(t, p, 0);
    text::lemma_absent(t, p, "result"@);
    text::lemma_lacks(t, q, 0);
    text::lemma_absent(t, q, "result"@);
    text::lemma_replaced_once(a, name, b, "result"@, k);
}

} // verus!
