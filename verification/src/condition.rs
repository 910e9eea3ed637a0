//! Turns conditions of a specification into Rust expressions.
//!
//! A condition is written in mathematical notation, with LaTeX commands and prose around it. What
//! can be read as a Rust expression is handed out; descriptive phrases that state no bound become
//! `true`; the rest is declined.
use vstd::arithmetic::power2;
use vstd::prelude::*;
use crate::chars;
use crate::chars::{all_of, split_whitespace, trim, trim_end_of, trim_start_of, CharClass};
use crate::lexer;
use crate::lexer::{tokens_to_rust_expr, Lexer};
use crate::numbers;
use crate::numbers::{parse_unsigned, power_of_two};
use crate::patterns;
use crate::patterns::{captures, is_match, replace_all};
use crate::text;
use crate::text::{
    before_str, cat, cat3, contains, decimal_of, ends_with, find_str, from_range, join, replace, rfind_pos,
    same, shorter_than, single_space, split, starts_with, to_chars,
};

verus! {

// ---------------------------------------------------------------------------
// Regular expressions of the notation
// ---------------------------------------------------------------------------
/// `\text{...}`, with what it holds as a group.
pub const TEXT_GROUP: &'static str = r"\\text\{([^}]*)\}";

/// A closing fragment of a list of numbers.
pub const NUMBER_FRAGMENT: &'static str = r"^\d[\d,]*\)\s*$";

/// The start of a list of activation heights.
pub const HEIGHT_LIST: &'static str = r"^\d[\d,]*;\s*testnet:";

/// Two results that are equal.
pub const RESULT_EQUALITY: &'static str = r"result\s*\([^)]*\)\s*(?:==|\\iff)\s*result\s*\([^)]*\)";

/// Two results that differ.
pub const RESULT_INEQUALITY: &'static str =
    r"result\s*\([^)]*\)\s*(?:\\neq|!=|≠)\s*result\s*\([^)]*\)";

/// Membership in a set that is written out.
pub const SET_MEMBERSHIP: &'static str = r"(?:\\in|∈)\s*\{([^}]+)\}";

/// A call of `VerifyScript` with a stray brace.
pub const STRAY_VERIFY_SCRIPT: &'static str = r"VerifyScript\}\s*\([^)]*\)";

/// `extracts lower N bits`, with the number as a group.
pub const LOWER_BITS: &'static str = r"extracts lower (\d+) bits";

/// `extracts bit N`.
pub const ONE_BIT: &'static str = r"extracts bit \d+";

/// Membership in the two forms of an option.
pub const OPTION_SET: &'static str = r"\\in\s*\{\s*Some[^}]*,\s*None\s*\}";

/// Membership in a set with `valid` and `invalid`.
pub const VALID_SET: &'static str = r"\\in\s*\{[^}]*valid[^}]*invalid[^}]*\}";

/// Membership in a set with `accepted` and `rejected`.
pub const ACCEPTED_SET: &'static str = r"\\in\s*\{[^}]*accepted[^}]*rejected[^}]*\}";

/// Membership in a set with `true` and `false`.
pub const BOOL_SET: &'static str = r"\\in\s*\{[^}]*true[^}]*false[^}]*\}";

/// Membership in a set with `success` and `failure`.
pub const SUCCESS_SET: &'static str = r"\\in\s*\{[^}]*success[^}]*failure[^}]*\}";

/// `result` with arguments, or none, in brackets.
pub const RESULT_CALL: &'static str = r"result\s*\([^)]*\)";

/// `result` with arguments in brackets that may hold brackets.
pub const RESULT_CALL_NESTED: &'static str = r"result\s*\([^)]*(?:\([^)]*\)[^)]*)*\)";

/// `result` with arguments in brackets.
pub const RESULT_CALL_ARGS: &'static str = r"result\s*\([^)]+\)";

/// A subscript in braces, with what it holds as a group.
pub const SUBSCRIPT: &'static str = r"_\{([^}]+)\}";

/// An element of a sequence by its number.
pub const INDEXED: &'static str = r"\w\[\d+\]";

/// A field or a method behind a dot.
pub const ACCESSED: &'static str = r"\.\w+[\s(]";

// ---------------------------------------------------------------------------
// Noise
// ---------------------------------------------------------------------------
/// Whether `cond` is a fragment that states nothing, where it is known whether its trimmed form is
/// a fragment of numbers and the start of a list of heights.
pub open spec fn noise_given(cond: Seq<char>, numbers: bool, heights: bool) -> bool {
    let c = chars::trimmed(cond);
    ||| text::byte_len(c) < 3
    ||| numbers
    ||| text::holds(c, "testnet:"@) && text::holds(c, "regtest:"@) && (text::ends(c, ")"@)
        || text::byte_len(c) < 60)
    ||| heights
    ||| text::starts(c, "//"@) || text::starts(c, "http"@)
    ||| text::holds(c, "testnet:"@) && text::ends(c, ")"@) && text::byte_len(c) < 80
}

/// Whether `cond` is a fragment that states nothing.
pub open spec fn noise(cond: Seq<char>) -> bool {
    let c = chars::trimmed(cond);
    noise_given(
        cond,
        patterns::pattern_matches(NUMBER_FRAGMENT@, c),
        patterns::pattern_matches(HEIGHT_LIST@, c),
    )
}

/// Whether `cond` is a fragment that states nothing, given what its trimmed form matches.
pub fn is_noise_given(cond: &str, numbers: bool, heights: bool) -> (r: bool)
    ensures
        r == noise_given(cond@, numbers, heights),
{
    let c = trim(cond);
    let c = c.as_str();
    if shorter_than(c, 3) || numbers {
        return true;
    }
    let testnet = contains(c, "testnet:");
    let closed = ends_with(c, ")");
    if testnet && contains(c, "regtest:") && (closed || shorter_than(c, 60)) {
        return true;
    }
    heights || starts_with(c, "//") || starts_with(c, "http") || (testnet && closed && shorter_than(
        c,
        80,
    ))
}

/// Names the fragments that state nothing: `Some("noise")` for such a one.
pub fn classify_noise(cond: &str) -> (r: Option<&'static str>)
    ensures
        r is Some <==> noise(cond@),
        r is Some ==> r->0@ == "noise"@,
{
    let c = trim(cond);
    let numbers = is_match(NUMBER_FRAGMENT, c.as_str());
    let heights = is_match(HEIGHT_LIST, c.as_str());
    if is_noise_given(cond, numbers, heights) {
        Some("noise")
    } else {
        None
    }
}

// ---------------------------------------------------------------------------
// Statements on two results
// ---------------------------------------------------------------------------
/// Whether `cond` says that two results are equal.
pub open spec fn result_equality(cond: Seq<char>) -> bool {
    patterns::pattern_matches(RESULT_EQUALITY@, cond)
}

/// Whether `cond` says that two results may differ.
pub open spec fn result_inequality(cond: Seq<char>) -> bool {
    patterns::pattern_matches(RESULT_INEQUALITY@, cond) || text::holds(cond, "may differ"@)
}

/// Whether `cond` says that two results are equal: a statement of determinism.
pub fn is_result_equality(cond: &str) -> (r: bool)
    ensures
        r == result_equality(cond@),
{
    is_match(RESULT_EQUALITY, cond)
}

/// Whether `cond` says that two results may differ.
pub fn is_result_inequality(cond: &str) -> (r: bool)
    ensures
        r == result_inequality(cond@),
{
    is_match(RESULT_INEQUALITY, cond) || contains(cond, "may differ")
}

// ---------------------------------------------------------------------------
// Sets of named values
// ---------------------------------------------------------------------------
/// The number that a name of a signature hash type stands for.
pub open spec fn named_value(name: Seq<char>) -> Option<int> {
    if name == "AllLegacy"@ {
        Some(0x00)
    } else if name == "All"@ {
        Some(0x01)
    } else if name == "None"@ {
        Some(0x02)
    } else if name == "Single"@ {
        Some(0x03)
    } else if name == "AnyoneCanPay"@ {
        Some(0x80)
    } else if name == "AllAnyoneCanPay"@ {
        Some(0x81)
    } else if name == "NoneAnyoneCanPay"@ {
        Some(0x82)
    } else if name == "SingleAnyoneCanPay"@ {
        Some(0x83)
    } else if name == "AnyoneC"@ {
        Some(0x81)
    } else {
        None
    }
}

/// A member of a set, without font command and blanks.
pub open spec fn member_name(part: Seq<char>) -> Seq<char> {
    chars::trimmed(text::replaced(text::replaced(part, r"\text{"@, ""@), "}"@, ""@))
}

/// Whether a member is no ellipsis and no blank.
pub open spec fn named_member(m: Seq<char>) -> bool {
    m.len() > 0 && m != "..."@ && m != ".."@
}

/// The disjunction over the first `n` members of a set, where all of them are known: what is
/// written, and whether anything is.
pub open spec fn disjunction_of(members: Seq<Seq<char>>, n: int) -> Option<Seq<Seq<char>>>
    decreases n,
{
    if n <= 0 || n > members.len() {
        Some(seq![])
    } else {
        let m = member_name(members[n - 1]);
        match disjunction_of(members, n - 1) {
            None => None,
            Some(done) => if !named_member(m) {
                Some(done)
            } else {
                match named_value(m) {
                    Some(v) => Some(done.push("result == "@ + text::decimal_int(v))),
                    None => None,
                }
            },
        }
    }
}

/// The disjunction over the members that stand in `members`, parted by commas.
pub open spec fn disjunction(members: Seq<char>) -> Option<Seq<char>> {
    let ps = text::parts(members, ","@);
    match disjunction_of(ps, ps.len() as int) {
        Some(done) if done.len() > 0 => Some("("@ + text::joined(done, " || "@) + ")"@),
        _ => None,
    }
}

/// The disjunction that the first set in `core` stands for.
pub open spec fn enum_membership(core: Seq<char>) -> Option<Seq<char>> {
    match patterns::pattern_groups(SET_MEMBERSHIP@, core) {
        Some(gs) if gs.len() > 1 && gs[1] is Some => disjunction(gs[1]->0),
        _ => None,
    }
}

fn value_of_name(name: &str) -> (r: Option<i64>)
    ensures
        match r {
            Some(v) => named_value(name@) == Some(v as int),
            None => named_value(name@) is None,
        },
{
    if same(name, "AllLegacy") {
        Some(0x00)
    } else if same(name, "All") {
        Some(0x01)
    } else if same(name, "None") {
        Some(0x02)
    } else if same(name, "Single") {
        Some(0x03)
    } else if same(name, "AnyoneCanPay") {
        Some(0x80)
    } else if same(name, "AllAnyoneCanPay") {
        Some(0x81)
    } else if same(name, "NoneAnyoneCanPay") {
        Some(0x82)
    } else if same(name, "SingleAnyoneCanPay") {
        Some(0x83)
    } else if same(name, "AnyoneC") {
        Some(0x81)
    } else {
        None
    }
}

proof fn lemma_unknown_member(members: Seq<Seq<char>>, k: int, n: int)
    requires
        0 <= k <= n <= members.len(),
        disjunction_of(members, k) is None,
    ensures
        disjunction_of(members, n) is None,
    decreases n - k,
{
    if k < n {
        lemma_unknown_member(members, k, n - 1);
    }
}

/// The disjunction of equalities over the members that stand in `members`.
pub fn membership_disjunction(members: &str) -> (r: Option<String>)
    ensures
        match r {
            Some(d) => disjunction(members@) == Some(d@),
            None => disjunction(members@) is None,
        },
{
    proof {
        reveal_strlit(",");
    }
    let parts = split(members, ",");
    let ghost ps = text::parts(members@, ","@);
    let mut done: Vec<String> = Vec::new();
    let mut i: usize = 0;
    proof {
        assert(text::views(done@) =~= seq![]);
    }
    while i < parts.len()
        invariant
            i <= parts.len(),
            text::views(parts@) == ps,
            ps == text::parts(members@, ","@),
            disjunction_of(ps, i as int) == Some(text::views(done@)),
        decreases parts.len() - i,
    {
        let m = replace(parts[i].as_str(), r"\text{", "");
        let m = replace(m.as_str(), "}", "");
        let m = trim(m.as_str());
        proof {
            assert(ps[i as int] == parts@[i as int]@);
            assert(m@ == member_name(ps[i as int]));
        }
        if !m.as_str().is_empty() && !same(m.as_str(), "...") && !same(m.as_str(), "..") {
            match value_of_name(m.as_str()) {
                Some(v) => {
                    let ghost had = done@;
                    let n = crate::text::integer_text(v);
                    let eq = cat("result == ", n.as_str());
                    done.push(eq);
                    proof {
                        assert(text::views(done@) =~= text::views(had).push(eq@));
                    }
                },
                None => {
                    proof {
                        lemma_unknown_member(ps, i + 1, ps.len() as int);
                    }
                    return None;
                },
            }
        }
        i += 1;
    }
    if done.len() == 0 {
        return None;
    }
    let body = join(done.as_slice(), " || ");
    Some(cat3("(", body.as_str(), ")"))
}

/// The disjunction that the first set in `core` stands for, if all its members are known.
pub fn parse_enum_membership(core: &str) -> (r: Option<String>)
    ensures
        match r {
            Some(d) => enum_membership(core@) == Some(d@),
            None => enum_membership(core@) is None,
        },
{
    match captures(SET_MEMBERSHIP, core) {
        Some(groups) => {
            if groups.len() > 1 {
                proof {
                    let gs = patterns::group_views(groups@);
                    assert(gs[1] == patterns::group_view(groups@[1]));
                }
                match &groups[1] {
                    Some(members) => membership_disjunction(members.as_str()),
                    None => None,
                }
            } else {
                None
            }
        },
        None => None,
    }
}

// ---------------------------------------------------------------------------
// First clean-up
// ---------------------------------------------------------------------------
/// The condition without blanks around it and without dollar signs.
pub open spec fn undelimited(condition: Seq<char>) -> Seq<char> {
    text::replaced(chars::trimmed(condition), "$"@, ""@)
}

/// The condition with `\text{...}` unwrapped.
pub open spec fn text_unwrapped(s: Seq<char>) -> Seq<char> {
    if text::holds(s, r"\text{"@) {
        patterns::pattern_replaced(TEXT_GROUP@, s, "$1"@)
    } else {
        s
    }
}

/// The condition with escaped braces made plain.
pub open spec fn braces_plain(s: Seq<char>) -> Seq<char> {
    text::replaced(text::replaced(s, r"\{"@, "{"@), r"\}"@, "}"@)
}

/// The condition as it is looked at first.
pub open spec fn cleaned(condition: Seq<char>) -> Seq<char> {
    braces_plain(text_unwrapped(undelimited(condition)))
}

/// Whether `s` is universally quantified.
pub open spec fn quantified(s: Seq<char>) -> bool {
    text::holds(s, r"\forall"@) || text::holds(s, "∀"@)
}

/// The sets with stray braces that are set right first.
pub open spec fn sets_mended(s: Seq<char>) -> Seq<char> {
    let s = text::replaced(s, "{valid}, invalid}}"@, "{valid, invalid}"@);
    let s = text::replaced(s, "{valid, invalid}}"@, "{valid, invalid}"@);
    let s = text::replaced(s, "{true}, false}}"@, "{true, false}"@);
    let s = text::replaced(s, "{true, false}}"@, "{true, false}"@);
    let s = text::replaced(s, "{accepted}, rejected}}"@, "{accepted, rejected}"@);
    text::replaced(s, "{accepted, rejected}}"@, "{accepted, rejected}"@)
}

/// The sets of pairs that are reduced to their decisive part.
pub open spec fn pairs_reduced(s: Seq<char>) -> Seq<char> {
    let s = text::replaced(s, r"{Some}(\mathcal{UC}), None}}"@, "{Some, None}"@);
    let s = text::replaced(s, r"{Some(\mathcal{UC}), None}"@, "{Some, None}"@);
    let s = text::replaced(s, "{Some}(...), None}}"@, "{Some, None}"@);
    let s = text::replaced(
        s,
        r"{(valid}, \mathcal{US}), (invalid}, \mathcal{US})}"@,
        "{valid, invalid}"@,
    );
    let s = text::replaced(
        s,
        r"{(valid, \mathcal{US}), (invalid, \mathcal{US})}"@,
        "{valid, invalid}"@,
    );
    let s = text::replaced(
        s,
        r"{(\mathcal{B}, success}), (\mathcal{B}, failure})}"@,
        "{success, failure}"@,
    );
    let s = text::replaced(
        s,
        r"{(\mathcal{B}, success), (\mathcal{B}, failure)}"@,
        "{success, failure}"@,
    );
    let s = text::replaced(s, r"{(valid}, \mathbb{Z}), (invalid}, 0)}"@, "{valid, invalid}"@);
    text::replaced(s, r"{(valid, \mathbb{Z}), (invalid, 0)}"@, "{valid, invalid}"@)
}

/// The condition with its sets in their usual form.
pub open spec fn sets_normal(s: Seq<char>) -> Seq<char> {
    pairs_reduced(
        patterns::pattern_replaced(STRAY_VERIFY_SCRIPT@, sets_mended(s), "result(ss, spk, w, f)"@),
    )
}

/// The condition without blanks around it and without dollar signs.
pub fn drop_delimiters(condition: &str) -> (r: String)
    ensures
        r@ == undelimited(condition@),
{
    replace(trim(condition).as_str(), "$", "")
}

/// The condition with escaped braces made plain.
pub fn plain_braces(s: &str) -> (r: String)
    ensures
        r@ == braces_plain(s@),
{
    let s = replace(s, r"\{", "{");
    replace(s.as_str(), r"\}", "}")
}

/// Sets right the sets with stray braces.
pub fn mend_sets(s: &str) -> (r: String)
    ensures
        r@ == sets_mended(s@),
{
    let s = replace(s, "{valid}, invalid}}", "{valid, invalid}");
    let s = replace(s.as_str(), "{valid, invalid}}", "{valid, invalid}");
    let s = replace(s.as_str(), "{true}, false}}", "{true, false}");
    let s = replace(s.as_str(), "{true, false}}", "{true, false}");
    let s = replace(s.as_str(), "{accepted}, rejected}}", "{accepted, rejected}");
    replace(s.as_str(), "{accepted, rejected}}", "{accepted, rejected}")
}

/// Reduces sets of pairs to their decisive part.
pub fn reduce_pairs(s: &str) -> (r: String)
    ensures
        r@ == pairs_reduced(s@),
{
    let s = replace(s, r"{Some}(\mathcal{UC}), None}}", "{Some, None}");
    let s = replace(s.as_str(), r"{Some(\mathcal{UC}), None}", "{Some, None}");
    let s = replace(s.as_str(), "{Some}(...), None}}", "{Some, None}");
    let s = replace(
        s.as_str(),
        r"{(valid}, \mathcal{US}), (invalid}, \mathcal{US})}",
        "{valid, invalid}",
    );
    let s = replace(
        s.as_str(),
        r"{(valid, \mathcal{US}), (invalid, \mathcal{US})}",
        "{valid, invalid}",
    );
    let s = replace(
        s.as_str(),
        r"{(\mathcal{B}, success}), (\mathcal{B}, failure})}",
        "{success, failure}",
    );
    let s = replace(
        s.as_str(),
        r"{(\mathcal{B}, success), (\mathcal{B}, failure)}",
        "{success, failure}",
    );
    let s = replace(s.as_str(), r"{(valid}, \mathbb{Z}), (invalid}, 0)}", "{valid, invalid}");
    replace(s.as_str(), r"{(valid, \mathbb{Z}), (invalid, 0)}", "{valid, invalid}")
}

// ---------------------------------------------------------------------------
// Phrases and forms that are answered at once
// ---------------------------------------------------------------------------
/// What a statement of a two-valued result becomes.
pub open spec fn two_valued() -> Seq<char> {
    "(result == true || result == false)"@
}

/// A list of pairs of texts, as mathematical values.
pub open spec fn rule_views(v: Seq<(&str, &str)>) -> Seq<(Seq<char>, Seq<char>)> {
    v.map_values(|p: (&str, &str)| (p.0@, p.1@))
}

/// The descriptive phrases, each with the expression that it becomes, in order of precedence.
pub open spec fn phrase_rules() -> Seq<(Seq<char>, Seq<char>)> {
    seq![
        ("Same inputs yield same hash"@, "true"@),
        ("Signature commits to UTXO value"@, "true"@),
        ("Signature is bound to specific tapscript"@, "true"@),
        ("OP_CODESEPARATOR position affects hash"@, "true"@),
        ("uses tagged hash for domain separation"@, "true"@),
        ("uses BIP340 tagged hash for domain separation"@, "true"@),
        ("validates elliptic curve point addition"@, "true"@),
        ("validates script is in Taproot merkle tree"@, "true"@),
        ("validates all Taproot-specific rules"@, "true"@),
        ("enforces minimum block version"@, "result >= 0"@),
        ("enforces strict DER encoding"@, "true"@),
        ("enforces NULLDUMMY for multisig"@, "true"@),
        ("ensures coinbase contains correct block height"@, "true"@),
        ("prevents duplicate coinbase transactions"@, "true"@),
        ("returns a block with at least one transaction"@, "true"@),
        ("Coinbase is first, followed by mempool"@, "true"@),
        ("Block structure follows deterministic rules"@, "true"@),
        (
            "compares double-SHA256 hash against expanded target"@,
            "(result == true || result == false)"@,
        ),
        ("requires valid target expansion"@, "true"@),
        ("produces 32-byte hash for comparison"@, "true"@),
        ("validates template hash matches expected value"@, "true"@),
        ("Tapscript disables OP_CHECKMULTISIG"@, "true"@),
        ("preserves opcode boundaries"@, "true"@),
        ("interprets bytes as minimal little-endian signed integer"@, "true"@),
        ("uses at most the last 11 block headers"@, "true"@),
        ("calculates minimum height and time locks"@, "true"@),
        ("no new peers created"@, "true"@),
        ("expands compact difficulty representation"@, "result >= 0"@),
        ("adjusts difficulty based on time span"@, "true"@),
        ("fails if operation count exceeds"@, "true"@),
        ("combined stack and altstack size is bounded"@, "true"@),
        ("executes ss first, then spk"@, "true"@),
        ("starts with empty stack"@, "true"@),
        ("requires tx.inputs"@, "true"@),
        ("skip input"@, "true"@),
        ("- If IsSequenceDisabled"@, "true"@),
        ("disabled locks always pass"@, "true"@),
        ("when EnforceBIP94"@, "true"@),
        ("encoding and decoding are inverse"@, "true"@),
        ("produces identical results"@, "true"@),
        ("produce identical results"@, "true"@),
        ("round-trip"@, "true"@),
        ("|result| = 4"@, "true"@),
        ("result is 4 bytes"@, "true"@),
    ]
}

fn phrase_table() -> (r: Vec<(&'static str, &'static str)>)
    ensures
        rule_views(r@) == phrase_rules(),
{
    let v: Vec<(&'static str, &'static str)> = vec![
        ("Same inputs yield same hash", "true"),
        ("Signature commits to UTXO value", "true"),
        ("Signature is bound to specific tapscript", "true"),
        ("OP_CODESEPARATOR position affects hash", "true"),
        ("uses tagged hash for domain separation", "true"),
        ("uses BIP340 tagged hash for domain separation", "true"),
        ("validates elliptic curve point addition", "true"),
        ("validates script is in Taproot merkle tree", "true"),
        ("validates all Taproot-specific rules", "true"),
        ("enforces minimum block version", "result >= 0"),
        ("enforces strict DER encoding", "true"),
        ("enforces NULLDUMMY for multisig", "true"),
        ("ensures coinbase contains correct block height", "true"),
        ("prevents duplicate coinbase transactions", "true"),
        ("returns a block with at least one transaction", "true"),
        ("Coinbase is first, followed by mempool", "true"),
        ("Block structure follows deterministic rules", "true"),
        (
            "compares double-SHA256 hash against expanded target",
            "(result == true || result == false)",
        ),
        ("requires valid target expansion", "true"),
        ("produces 32-byte hash for comparison", "true"),
        ("validates template hash matches expected value", "true"),
        ("Tapscript disables OP_CHECKMULTISIG", "true"),
        ("preserves opcode boundaries", "true"),
        ("interprets bytes as minimal little-endian signed integer", "true"),
        ("uses at most the last 11 block headers", "true"),
        ("calculates minimum height and time locks", "true"),
        ("no new peers created", "true"),
        ("expands compact difficulty representation", "result >= 0"),
        ("adjusts difficulty based on time span", "true"),
        ("fails if operation count exceeds", "true"),
        ("combined stack and altstack size is bounded", "true"),
        ("executes ss first, then spk", "true"),
        ("starts with empty stack", "true"),
        ("requires tx.inputs", "true"),
        ("skip input", "true"),
        ("- If IsSequenceDisabled", "true"),
        ("disabled locks always pass", "true"),
        ("when EnforceBIP94", "true"),
        ("encoding and decoding are inverse", "true"),
        ("produces identical results", "true"),
        ("produce identical results", "true"),
        ("round-trip", "true"),
        ("|result| = 4", "true"),
        ("result is 4 bytes", "true"),
    ];
    proof {
        assert(rule_views(v@) =~= phrase_rules());
    }
    v
}

/// The first rule from `i` on whose phrase stands in `s`.
pub open spec fn phrase_from(rules: Seq<(Seq<char>, Seq<char>)>, s: Seq<char>, i: int) -> Option<
    Seq<char>,
>
    decreases rules.len() - i,
{
    if i < 0 || i >= rules.len() {
        None
    } else if text::holds(s, rules[i].0) {
        Some(rules[i].1)
    } else {
        phrase_from(rules, s, i + 1)
    }
}

/// What a descriptive phrase in `s` becomes. Long texts are not looked at.
pub open spec fn phrase(s: Seq<char>) -> Option<Seq<char>> {
    if text::byte_len(s) < 120 {
        phrase_from(phrase_rules(), s, 0)
    } else {
        None
    }
}

/// What a descriptive phrase in `s` becomes.
pub fn phrase_of(s: &str) -> (r: Option<String>)
    ensures
        match r {
            Some(e) => phrase(s@) == Some(e@),
            None => phrase(s@) is None,
        },
{
    if !shorter_than(s, 120) {
        return None;
    }
    let rules = phrase_table();
    let mut i: usize = 0;
    while i < rules.len()
        invariant
            i <= rules.len(),
            rule_views(rules@) == phrase_rules(),
            text::byte_len(s@) < 120,
            phrase(s@) == phrase_from(phrase_rules(), s@, i as int),
        decreases rules.len() - i,
    {
        let rule = rules[i];
        proof {
            assert(phrase_rules()[i as int] == (rule.0@, rule.1@));
        }
        if contains(s, rule.0) {
            return Some(rule.1.to_owned());
        }
        i += 1;
    }
    None
}

/// What the regular expressions find in a condition whose sets are in their usual form.
pub struct Findings {
    /// Two results are equal.
    pub equality: bool,
    /// Two results differ.
    pub inequality: bool,
    /// The number of lower bits that are extracted.
    pub lower_bits: Option<String>,
    /// One bit is extracted.
    pub one_bit: bool,
    /// The two forms of an option.
    pub option_set: bool,
}

/// The bound that `N` lower bits give.
pub open spec fn bits_bound(bits: Option<Seq<char>>) -> Option<Seq<char>> {
    match bits {
        Some(digits) => match numbers::unsigned_up_to(digits, 10, 64) {
            Some(n) => Some("result >= 0 && result < "@ + text::decimal(power2::pow2(n))),
            None => None,
        },
        None => None,
    }
}

/// What a condition becomes at once, given what the regular expressions find in it.
pub open spec fn direct_given(
    s: Seq<char>,
    equality: bool,
    inequality: bool,
    lower_bits: Option<Seq<char>>,
    one_bit: bool,
    option_set: bool,
) -> Option<Seq<char>> {
    if s == "true"@ || s == "true}"@ {
        Some("true"@)
    } else if text::holds(s, "VerifyScript"@) && text::holds(s, r"\in"@) && text::holds(s, "true"@)
        && text::holds(s, "false"@) {
        Some(two_valued())
    } else if text::holds(s, "result"@) && text::holds(s, r"\in {true"@) && text::holds(s, "false"@) {
        Some(two_valued())
    } else if equality || inequality || text::holds(s, "may differ"@) {
        Some("true"@)
    } else if phrase(s) is Some {
        phrase(s)
    } else if bits_bound(lower_bits) is Some {
        bits_bound(lower_bits)
    } else if one_bit {
        Some(two_valued())
    } else if (text::holds(s, r"\in \mathbb{N}"@) || text::holds(s, "∈ ℕ"@)) && text::holds(
        s,
        "result"@,
    ) {
        Some("result >= 0"@)
    } else if text::holds(s, r"\in \mathbb{Z}"@) || text::holds(s, r"\in \mathbb{S}"@) {
        Some("true"@)
    } else if option_set {
        Some("true"@)
    } else {
        None
    }
}

/// The first group of the first match, if there is one.
pub open spec fn first_group(pattern: Seq<char>, s: Seq<char>) -> Option<Seq<char>> {
    match patterns::pattern_groups(pattern, s) {
        Some(gs) if gs.len() > 1 => gs[1],
        _ => None,
    }
}

/// What a condition becomes at once.
pub open spec fn direct(s: Seq<char>) -> Option<Seq<char>> {
    direct_given(
        s,
        patterns::pattern_matches(RESULT_EQUALITY@, s),
        patterns::pattern_matches(RESULT_INEQUALITY@, s),
        first_group(LOWER_BITS@, s),
        patterns::pattern_matches(ONE_BIT@, s),
        patterns::pattern_matches(OPTION_SET@, s),
    )
}

fn first_group_of(pattern: &str, s: &str) -> (r: Option<String>)
    ensures
        patterns::group_view(r) == first_group(pattern@, s@),
{
    match captures(pattern, s) {
        Some(groups) => {
            if groups.len() > 1 {
                proof {
                    let gs = patterns::group_views(groups@);
                    assert(gs[1] == patterns::group_view(groups@[1]));
                }
                groups[1].clone()
            } else {
                None
            }
        },
        None => None,
    }
}

/// What a condition becomes at once, given what the regular expressions find in it.
pub fn direct_answer(s: &str, found: &Findings) -> (r: Option<String>)
    ensures
        patterns::group_view(r) == direct_given(
            s@,
            found.equality,
            found.inequality,
            patterns::group_view(found.lower_bits),
            found.one_bit,
            found.option_set,
        ),
{
    if same(s, "true") || same(s, "true}") {
        return Some("true".to_owned());
    }
    let says_false = contains(s, "false");
    if contains(s, "VerifyScript") && contains(s, r"\in") && contains(s, "true") && says_false {
        return Some("(result == true || result == false)".to_owned());
    }
    if contains(s, "result") && contains(s, r"\in {true") && says_false {
        return Some("(result == true || result == false)".to_owned());
    }
    if found.equality || found.inequality || contains(s, "may differ") {
        return Some("true".to_owned());
    }
    if let Some(e) = phrase_of(s) {
        return Some(e);
    }
    if let Some(digits) = &found.lower_bits {
        if let Some(n) = parse_unsigned(digits.as_str(), 10, 64) {
            let bound = decimal_of(power_of_two(n as u32));
            return Some(cat("result >= 0 && result < ", bound.as_str()));
        }
    }
    if found.one_bit {
        return Some("(result == true || result == false)".to_owned());
    }
    if (contains(s, r"\in \mathbb{N}") || contains(s, "∈ ℕ")) && contains(s, "result") {
        return Some("result >= 0".to_owned());
    }
    if contains(s, r"\in \mathbb{Z}") || contains(s, r"\in \mathbb{S}") || found.option_set {
        return Some("true".to_owned());
    }
    None
}

// ---------------------------------------------------------------------------
// The part of a condition that counts
// ---------------------------------------------------------------------------
/// The position of the bracket that closes, counted from `p` inside `depth` open ones.
pub open spec fn closing(s: Seq<char>, p: int, depth: nat) -> Option<int>
    decreases s.len() - p,
{
    if p < 0 || p >= s.len() {
        None
    } else if s[p] == '(' {
        closing(s, p + 1, depth + 1)
    } else if s[p] == ')' {
        if depth == 0 {
            Some(p)
        } else {
            closing(s, p + 1, (depth - 1) as nat)
        }
    } else {
        closing(s, p + 1, depth)
    }
}

fn closing_pos(s: &[char]) -> (r: Option<usize>)
    ensures
        match r {
            Some(i) => closing(s@, 0, 0) == Some(i as int) && i < s@.len(),
            None => closing(s@, 0, 0) is None,
        },
{
    let mut p: usize = 0;
    let mut depth: usize = 0;
    while p < s.len()
        invariant
            depth <= p <= s.len(),
            closing(s@, 0, 0) == closing(s@, p as int, depth as nat),
        decreases s.len() - p,
    {
        if s[p] == '(' {
            depth += 1;
        } else if s[p] == ')' {
            if depth == 0 {
                return Some(p);
            }
            depth -= 1;
        }
        p += 1;
    }
    None
}

/// A step of reading a condition: an answer, or the text to go on with.
pub enum Step {
    Answer(String),
    Go(String),
}

/// A step of reading a condition, as a mathematical value.
pub enum StepView {
    Answer(Seq<char>),
    Go(Seq<char>),
}

impl View for Step {
    type V = StepView;

    open spec fn view(&self) -> StepView {
        match self {
            Step::Answer(s) => StepView::Answer(s@),
            Step::Go(s) => StepView::Go(s@),
        }
    }
}

/// `requires(expr)` is read as `expr`, and `requires t \in [0, 1]` as its two bounds.
pub open spec fn required(s: Seq<char>) -> StepView {
    match text::find(s, "requires"@) {
        None => StepView::Go(s),
        Some(at) => {
            let after = chars::trimmed(s.skip(at + 8));
            if text::starts(after, "("@) {
                let inner = after.skip(1);
                match closing(inner, 0, 0) {
                    Some(end) if chars::trimmed(inner.take(end)).len() > 0 => StepView::Go(
                        chars::trimmed(inner.take(end)),
                    ),
                    _ => StepView::Go(s),
                }
            } else {
                match text::find(after, r"\in [0, 1]"@) {
                    None => StepView::Go(s),
                    Some(k) => {
                        let names = chars::words(chars::trimmed(after.take(k)));
                        let var = chars::cut_end(
                            chars::cut_start(names.last(), CharClass::NotWord),
                            CharClass::NotWord,
                        );
                        if names.len() > 0 && var.len() > 0 && chars::all_in(var, CharClass::Word) {
                            StepView::Answer(var + " >= 0 && "@ + var + " <= 1"@)
                        } else {
                            StepView::Go(s)
                        }
                    },
                }
            }
        },
    }
}

/// The Rust form of the condition in an equivalence.
pub open spec fn equivalence_inner(s: Seq<char>) -> Seq<char> {
    let s = text::replaced(s, r"\lor"@, " || "@);
    let s = text::replaced(s, r"\land"@, " && "@);
    let s = text::replaced(s, r"\geq"@, " >= "@);
    let s = text::replaced(s, r"\leq"@, " <= "@);
    let s = text::replaced(s, r"min\_h"@, "min_h"@);
    let s = text::replaced(s, r"min\_t"@, "min_t"@);
    text::replaced(s, r"\"@, " "@)
}

/// What stands behind the first `\iff` and the blank that follows it.
pub open spec fn behind_equivalence(s: Seq<char>, at: int) -> Seq<char> {
    if at + 5 <= s.len() {
        chars::trimmed(s.skip(at + 5))
    } else {
        seq![]
    }
}

/// `... \iff (condition)` is read as the condition, where that holds a comparison or a connective.
pub open spec fn equivalent(s: Seq<char>) -> Option<Seq<char>> {
    match text::find(s, r"\iff"@) {
        None => None,
        Some(at) => {
            let after = behind_equivalence(s, at);
            match text::find(after, "("@) {
                None => None,
                Some(open) => {
                    let rest = after.skip(open + 1);
                    match closing(rest, 0, 0) {
                        None => None,
                        Some(end) => {
                            let inner = equivalence_inner(rest.take(end));
                            if text::holds(inner, "||"@) || text::holds(inner, "&&"@) || text::holds(
                                inner,
                                ">="@,
                            ) || text::holds(inner, "<="@) {
                                Some(chars::trimmed(inner))
                            } else {
                                None
                            }
                        },
                    }
                },
            }
        },
    }
}

/// Of an implication the conclusion is read, where it is short and holds no further one.
pub open spec fn concluded(s: Seq<char>) -> Seq<char> {
    let s = match text::find(s, "=>"@) {
        Some(at) => {
            let after = chars::trimmed(s.skip(at + 2));
            if after.len() > 0 && !text::holds(after, "=>"@) && text::byte_len(after) < 100 {
                after
            } else {
                s
            }
        },
        None => s,
    };
    match text::find(s, "⟹"@) {
        Some(at) => {
            let after = chars::trimmed(s.skip(at + 1));
            if after.len() > 0 && text::byte_len(after) < 100 {
                after
            } else {
                s
            }
        },
        None => s,
    }
}

/// What is left of a condition without its qualifications.
pub open spec fn unqualified(s: Seq<char>) -> Seq<char> {
    let s = text::before(s, " for "@);
    let s = text::before(s, " for all "@);
    let s = text::before(s, " and "@);
    let s = chars::trimmed(text::before(s, " && "@));
    let s = if text::holds(s, " ("@) {
        chars::trimmed(text::before(s, " ("@))
    } else {
        s
    };
    if text::holds(s, "∀"@) && text::holds(s, ":"@) {
        chars::trimmed(s.skip(text::find(s, ":"@)->0 + 1))
    } else {
        s
    }
}

/// The part of a condition that counts, or an answer.
pub open spec fn core_step(s: Seq<char>) -> StepView {
    match required(s) {
        StepView::Answer(a) => StepView::Answer(a),
        StepView::Go(t) => match equivalent(t) {
            Some(a) => StepView::Answer(a),
            None => StepView::Go(unqualified(concluded(t))),
        },
    }
}

fn skip_chars(s: &str, n: usize) -> (r: String)
    requires
        n <= s@.len(),
    ensures
        r@ == s@.skip(n as int),
{
    let v = to_chars(s);
    proof {
        assert(s@.subrange(n as int, s@.len() as int) =~= s@.skip(n as int));
    }
    from_range(v.as_slice(), n, v.len())
}

fn take_chars(s: &str, n: usize) -> (r: String)
    requires
        n <= s@.len(),
    ensures
        r@ == s@.take(n as int),
{
    let v = to_chars(s);
    proof {
        assert(s@.subrange(0, n as int) =~= s@.take(n as int));
    }
    from_range(v.as_slice(), 0, n)
}

fn required_step(s: &str) -> (r: Step)
    ensures
        r@ == required(s@),
{
    proof {
        reveal_strlit("requires");
        reveal_strlit("(");
    }
    let at: usize = match find_str(s, "requires") {
        Some(at) => at,
        None => {
            return Step::Go(s.to_owned());
        },
    };
    let after = trim(skip_chars(s, at + 8).as_str());
    if starts_with(after.as_str(), "(") {
        let inner = skip_chars(after.as_str(), 1);
        if let Some(end) = closing_pos(to_chars(inner.as_str()).as_slice()) {
            let expr = trim(take_chars(inner.as_str(), end).as_str());
            if !expr.as_str().is_empty() {
                return Step::Go(expr);
            }
        }
    } else if let Some(k) = find_str(after.as_str(), r"\in [0, 1]") {
        let front = trim(take_chars(after.as_str(), k).as_str());
        let names = split_whitespace(front.as_str());
        let n: usize = names.len();
        if n > 0 {
            proof {
                assert(text::views(names@).last() == names@[n - 1]@);
            }
            let var = trim_start_of(names[n - 1].as_str(), CharClass::NotWord);
            let var = trim_end_of(var.as_str(), CharClass::NotWord);
            if !var.as_str().is_empty() && all_of(var.as_str(), CharClass::Word) {
                let lower = cat3(var.as_str(), " >= 0 && ", var.as_str());
                return Step::Answer(cat(lower.as_str(), " <= 1"));
            }
        }
    }
    Step::Go(s.to_owned())
}

fn equivalence_answer(s: &str) -> (r: Option<String>)
    ensures
        patterns::group_view(r) == equivalent(s@),
{
    proof {
        reveal_strlit(r"\iff");
        reveal_strlit("(");
    }
    let at: usize = match find_str(s, r"\iff") {
        Some(at) => at,
        None => {
            return None;
        },
    };
    let n: usize = to_chars(s).len();
    let after = if at + 4 < n {
        trim(skip_chars(s, at + 5).as_str())
    } else {
        String::new()
    };
    proof {
        assert(after@ =~= behind_equivalence(s@, at as int));
    }
    let open: usize = match find_str(after.as_str(), "(") {
        Some(open) => open,
        None => {
            return None;
        },
    };
    let rest = skip_chars(after.as_str(), open + 1);
    let end: usize = match closing_pos(to_chars(rest.as_str()).as_slice()) {
        Some(end) => end,
        None => {
            return None;
        },
    };
    let inner = take_chars(rest.as_str(), end);
    let inner = replace(inner.as_str(), r"\lor", " || ");
    let inner = replace(inner.as_str(), r"\land", " && ");
    let inner = replace(inner.as_str(), r"\geq", " >= ");
    let inner = replace(inner.as_str(), r"\leq", " <= ");
    let inner = replace(inner.as_str(), r"min\_h", "min_h");
    let inner = replace(inner.as_str(), r"min\_t", "min_t");
    let inner = replace(inner.as_str(), r"\", " ");
    if contains(inner.as_str(), "||") || contains(inner.as_str(), "&&") || contains(
        inner.as_str(),
        ">=",
    ) || contains(inner.as_str(), "<=") {
        Some(trim(inner.as_str()))
    } else {
        None
    }
}

fn conclusion(s: &str) -> (r: String)
    ensures
        r@ == concluded(s@),
{
    proof {
        reveal_strlit("=>");
        reveal_strlit("⟹");
    }
    let mut t = s.to_owned();
    if let Some(at) = find_str(s, "=>") {
        let after = trim(skip_chars(s, at + 2).as_str());
        if !after.as_str().is_empty() && !contains(after.as_str(), "=>") && shorter_than(
            after.as_str(),
            100,
        ) {
            t = after;
        }
    }
    if let Some(at) = find_str(t.as_str(), "⟹") {
        let after = trim(skip_chars(t.as_str(), at + 1).as_str());
        if !after.as_str().is_empty() && shorter_than(after.as_str(), 100) {
            return after;
        }
    }
    t
}

fn without_qualification(s: &str) -> (r: String)
    ensures
        r@ == unqualified(s@),
{
    let t = before_str(s, " for ");
    let t = before_str(t.as_str(), " for all ");
    let t = before_str(t.as_str(), " and ");
    let t = trim(before_str(t.as_str(), " && ").as_str());
    let t = if contains(t.as_str(), " (") {
        trim(before_str(t.as_str(), " (").as_str())
    } else {
        t
    };
    if contains(t.as_str(), "∀") {
        proof {
            reveal_strlit(":");
        }
        if let Some(at) = find_str(t.as_str(), ":") {
            return trim(skip_chars(t.as_str(), at + 1).as_str());
        }
    }
    t
}

/// The part of a condition that counts, or an answer.
pub fn core_of(s: &str) -> (r: Step)
    ensures
        r@ == core_step(s@),
{
    match required_step(s) {
        Step::Answer(a) => Step::Answer(a),
        Step::Go(t) => match equivalence_answer(t.as_str()) {
            Some(a) => Step::Answer(a),
            None => Step::Go(without_qualification(conclusion(t.as_str()).as_str())),
        },
    }
}

// ---------------------------------------------------------------------------
// Membership of the result
// ---------------------------------------------------------------------------
/// What the regular expressions find in the part of a condition that counts.
#[derive(Clone, Copy)]
pub struct Memberships {
    /// A set with `valid` and `invalid`.
    pub valid: bool,
    /// A set with `accepted` and `rejected`.
    pub accepted: bool,
    /// A set with `true` and `false`.
    pub truth: bool,
    /// A set with `success` and `failure`.
    pub success: bool,
}

/// What stands before the sign of membership.
pub open spec fn member_side(core: Seq<char>) -> Seq<char> {
    text::before(core, r" \in "@)
}

/// Whether the core says that the result is in a two-valued set, given which sets occur and what
/// the side before the sign of membership is with the arguments of the result dropped: by the
/// plain form and by the form with nested brackets.
pub open spec fn two_valued_given(
    core: Seq<char>,
    m: Memberships,
    plain: Seq<char>,
    nested: Seq<char>,
) -> bool {
    &&& text::holds(member_side(core), "result"@)
    &&& {
        ||| (m.valid || m.accepted) && chars::trimmed(plain) == "result"@
        ||| m.truth && chars::trimmed(nested) == "result"@
        ||| m.success
    }
}

/// The sets of two values that occur in the core.
pub open spec fn memberships(core: Seq<char>) -> Memberships {
    Memberships {
        valid: patterns::pattern_matches(VALID_SET@, core),
        accepted: patterns::pattern_matches(ACCEPTED_SET@, core),
        truth: patterns::pattern_matches(BOOL_SET@, core),
        success: patterns::pattern_matches(SUCCESS_SET@, core),
    }
}

/// Whether the core says that the result is in a two-valued set.
pub open spec fn says_two_valued(core: Seq<char>) -> bool {
    two_valued_given(
        core,
        memberships(core),
        patterns::pattern_replaced(RESULT_CALL@, member_side(core), "result"@),
        patterns::pattern_replaced(RESULT_CALL_NESTED@, member_side(core), "result"@),
    )
}

/// Whether the core says that the result is in a two-valued set.
pub fn is_two_valued(core: &str, m: Memberships, plain: &str, nested: &str) -> (r: bool)
    ensures
        r == two_valued_given(core@, m, plain@, nested@),
{
    let side = before_str(core, r" \in ");
    if !contains(side.as_str(), "result") {
        return false;
    }
    ((m.valid || m.accepted) && same(trim(plain).as_str(), "result")) || (m.truth && same(
        trim(nested).as_str(),
        "result",
    )) || m.success
}

// ---------------------------------------------------------------------------
// LaTeX and Unicode signs
// ---------------------------------------------------------------------------
/// The core with signs of arithmetic and order in their Rust form.
pub open spec fn signs_plain(s: Seq<char>) -> Seq<char> {
    let s = text::replaced(s, r"\cdot"@, "*"@);
    let s = text::replaced(s, r"\cdotp"@, "*"@);
    let s = text::replaced(s, "\u{00b7}"@, "*"@);
    let s = text::replaced(s, "\u{2219}"@, "*"@);
    let s = text::replaced(s, "\u{2217}"@, "*"@);
    let s = text::replaced(s, r"\times"@, "*"@);
    let s = text::replaced(s, "\u{00d7}"@, "*"@);
    let s = text::replaced(s, "\u{2264}"@, "<="@);
    let s = text::replaced(s, "\u{2265}"@, ">="@);
    let s = text::replaced(s, "\u{2260}"@, "!="@);
    text::replaced(s, "\u{2212}"@, "-"@)
}

/// The core with signs of logic in their Rust form.
pub open spec fn logic_plain(s: Seq<char>) -> Seq<char> {
    let s = text::replaced(s, "\u{2227}"@, " && "@);
    let s = text::replaced(s, "\u{2228}"@, " || "@);
    let s = text::replaced(s, "\u{2192}"@, " => "@);
    let s = text::replaced(s, "\u{21d2}"@, " => "@);
    let s = text::replaced(s, "\u{21d4}"@, " == "@);
    text::replaced(s, "\u{27fa}"@, " == "@)
}

/// The core with the rest of the commands in their plain form.
pub open spec fn commands_plain(s: Seq<char>) -> Seq<char> {
    let s = text::replaced(s, r"\ast"@, "*"@);
    let s = text::replaced(s, r"\div"@, "/"@);
    let s = text::replaced(s, r"\left("@, "("@);
    let s = text::replaced(s, r"\right)"@, ")"@);
    let s = text::replaced(s, r"\left."@, ""@);
    let s = text::replaced(s, r"\right."@, ""@);
    let s = text::replaced(s, r"\ldots"@, ""@);
    let s = text::replaced(s, r"\mathcal{US}"@, "US"@);
    let s = text::replaced(s, r"\mathcal{UC}"@, "UC"@);
    text::replaced(s, r"\mathcal{B}"@, "B"@)
}

/// The core in plain signs.
pub open spec fn notation_plain(s: Seq<char>) -> Seq<char> {
    commands_plain(logic_plain(signs_plain(s)))
}

/// The core in plain signs.
pub fn plain_notation(s: &str) -> (r: String)
    ensures
        r@ == notation_plain(s@),
{
    let s = plain_signs(s);
    let s = plain_logic(s.as_str());
    plain_commands(s.as_str())
}

fn plain_signs(s: &str) -> (r: String)
    ensures
        r@ == signs_plain(s@),
{
    let s = replace(s, r"\cdot", "*");
    let s = replace(s.as_str(), r"\cdotp", "*");
    let s = replace(s.as_str(), "\u{00b7}", "*");
    let s = replace(s.as_str(), "\u{2219}", "*");
    let s = replace(s.as_str(), "\u{2217}", "*");
    let s = replace(s.as_str(), r"\times", "*");
    let s = replace(s.as_str(), "\u{00d7}", "*");
    let s = replace(s.as_str(), "\u{2264}", "<=");
    let s = replace(s.as_str(), "\u{2265}", ">=");
    let s = replace(s.as_str(), "\u{2260}", "!=");
    replace(s.as_str(), "\u{2212}", "-")
}

fn plain_logic(s: &str) -> (r: String)
    ensures
        r@ == logic_plain(s@),
{
    let s = replace(s, "\u{2227}", " && ");
    let s = replace(s.as_str(), "\u{2228}", " || ");
    let s = replace(s.as_str(), "\u{2192}", " => ");
    let s = replace(s.as_str(), "\u{21d2}", " => ");
    let s = replace(s.as_str(), "\u{21d4}", " == ");
    replace(s.as_str(), "\u{27fa}", " == ")
}

fn plain_commands(s: &str) -> (r: String)
    ensures
        r@ == commands_plain(s@),
{
    let s = replace(s, r"\ast", "*");
    let s = replace(s.as_str(), r"\div", "/");
    let s = replace(s.as_str(), r"\left(", "(");
    let s = replace(s.as_str(), r"\right)", ")");
    let s = replace(s.as_str(), r"\left.", "");
    let s = replace(s.as_str(), r"\right.", "");
    let s = replace(s.as_str(), r"\ldots", "");
    let s = replace(s.as_str(), r"\mathcal{US}", "US");
    let s = replace(s.as_str(), r"\mathcal{UC}", "UC");
    replace(s.as_str(), r"\mathcal{B}", "B")
}

/// The core without closing braces at its end, unless an empty pair stands there.
pub open spec fn without_closing(s: Seq<char>) -> Seq<char>
    decreases s.len(),
{
    if s.len() > 0 && s.last() == '}' && !text::ends(s, "{}"@) && chars::trimmed(
        s.drop_last(),
    ).len() < s.len() {
        without_closing(chars::trimmed(s.drop_last()))
    } else {
        s
    }
}

/// Whether a core is declined: it is empty or long, a link, quantified, a membership that is not
/// understood, or a statement on what is preserved.
pub open spec fn declined(s: Seq<char>) -> bool {
    ||| s.len() == 0 || text::byte_len(s) > 180
    ||| text::starts(s, "//"@) || text::starts(s, "http"@)
    ||| text::holds(s, "∀"@) || text::holds(s, "∈"@)
    ||| text::holds(s, "preserves"@) && !text::holds(s, "opcode"@)
}

/// What a core with a set becomes when its members are not all known.
pub open spec fn set_fallback(s: Seq<char>) -> Option<Seq<char>> {
    if text::holds(s, r"\in {"@) && (text::holds(s, "AllLegacy"@) || text::holds(s, "AnyoneC"@)) {
        Some("true"@)
    } else if text::holds(s, "result"@) && (text::holds(s, r"\in {true"@) || text::holds(
        s,
        r"\in { true"@,
    )) && text::holds(s, "false"@) && text::holds(s, "}"@) {
        Some(two_valued())
    } else {
        None
    }
}

/// The core without closing braces at its end.
pub fn drop_closing(s: &str) -> (r: String)
    ensures
        r@ == without_closing(s@),
{
    let mut t = s.to_owned();
    proof {
        reveal_strlit("}");
        assert("}"@ =~= seq!['}']);
    }
    while ends_with(t.as_str(), "}") && !ends_with(t.as_str(), "{}")
        invariant
            "}"@ == seq!['}'],
            without_closing(s@) == without_closing(t@),
        decreases t@.len(),
    {
        let n: usize = to_chars(t.as_str()).len();
        proof {
            assert(t@.skip(t@.len() - 1)[0] == t@.last());
            chars::lemma_cut_len(t@.drop_last(), CharClass::Space);
            chars::lemma_cut_len(
                chars::cut_start(t@.drop_last(), CharClass::Space),
                CharClass::Space,
            );
            assert(t@.take(n - 1) =~= t@.drop_last());
        }
        t = trim(take_chars(t.as_str(), n - 1).as_str());
    }
    proof {
        if t@.len() > 0 && t@.last() == '}' {
            assert(t@.skip(t@.len() - 1) =~= seq!['}']);
        }
    }
    t
}

/// Whether a core is declined.
pub fn is_declined(s: &str) -> (r: bool)
    ensures
        r == declined(s@),
{
    s.is_empty() || !shorter_than(s, 181) || starts_with(s, "//") || starts_with(s, "http")
        || contains(s, "∀") || contains(s, "∈") || (contains(s, "preserves") && !contains(
        s,
        "opcode",
    ))
}

/// What a core with a set becomes when its members are not all known.
pub fn set_fallback_of(s: &str) -> (r: Option<String>)
    ensures
        patterns::group_view(r) == set_fallback(s@),
{
    if contains(s, r"\in {") && (contains(s, "AllLegacy") || contains(s, "AnyoneC")) {
        Some("true".to_owned())
    } else if contains(s, "result") && (contains(s, r"\in {true") || contains(s, r"\in { true"))
        && contains(s, "false") && contains(s, "}") {
        Some("(result == true || result == false)".to_owned())
    } else {
        None
    }
}

// ---------------------------------------------------------------------------
// The expression that is handed out
// ---------------------------------------------------------------------------
/// Whether `cond` only says that the result is true or false, one or zero.
pub open spec fn bare_result_bool(cond: Seq<char>) -> bool {
    let s = chars::trimmed(cond);
    ||| s == "result == true"@
    ||| s == "result == false"@
    ||| s == "result != true"@
    ||| s == "result != false"@
    ||| s == "result == 1"@
    ||| s == "result == 0"@
}

/// Whether `cond` only says that the result is true or false, one or zero.
pub fn is_bare_result_bool(cond: &str) -> (r: bool)
    ensures
        r == bare_result_bool(cond@),
{
    let s = trim(cond);
    let s = s.as_str();
    same(s, "result == true") || same(s, "result == false") || same(s, "result != true") || same(
        s,
        "result != false",
    ) || same(s, "result == 1") || same(s, "result == 0")
}

/// Whether `cond` refers to a field, a method or an element, given what the regular expressions
/// find.
pub open spec fn member_access_given(cond: Seq<char>, indexed: bool, accessed: bool) -> bool {
    indexed || accessed || text::holds(cond, ".len("@)
}

/// Whether `cond` refers to a field, a method or an element.
pub open spec fn member_access(cond: Seq<char>) -> bool {
    member_access_given(
        cond,
        patterns::pattern_matches(INDEXED@, cond),
        patterns::pattern_matches(ACCESSED@, cond),
    )
}

/// Whether `cond` refers to a field, a method or an element.
pub fn condition_has_member_access(cond: &str) -> (r: bool)
    ensures
        r == member_access(cond@),
{
    is_match(INDEXED, cond) || is_match(ACCESSED, cond) || contains(cond, ".len(")
}

/// Whether a sign of order or equality stands in `s`.
pub open spec fn relates(s: Seq<char>) -> bool {
    text::holds(s, ">"@) || text::holds(s, "<"@) || text::holds(s, "=="@) || text::holds(s, "!="@)
}

/// Whether a sign of order, equality or arithmetic stands in `s`.
pub open spec fn operates(s: Seq<char>) -> bool {
    relates(s) || text::holds(s, "*"@) || text::holds(s, "/"@) || text::holds(s, "+"@)
        || text::holds(s, "-"@)
}

fn has_relation(s: &str) -> (r: bool)
    ensures
        r == relates(s@),
{
    contains(s, ">") || contains(s, "<") || contains(s, "==") || contains(s, "!=")
}

fn has_operator(s: &str) -> (r: bool)
    ensures
        r == operates(s@),
{
    has_relation(s) || contains(s, "*") || contains(s, "/") || contains(s, "+") || contains(s, "-")
}

/// Of a single implication the conclusion.
pub open spec fn implied(s: Seq<char>) -> Seq<char> {
    match text::find(s, "=>"@) {
        Some(at) => {
            let after = chars::trimmed(s.skip(at + 2));
            if after.len() > 0 && !text::holds(after, "=>"@) && text::byte_len(after) < 200 {
                after
            } else {
                s
            }
        },
        None => s,
    }
}

/// The expression without a remark in brackets at its end.
pub open spec fn without_remark(s: Seq<char>) -> Seq<char> {
    match text::rfind(s, '(') {
        Some(open) if text::ends(s, ")"@) => {
            let front = chars::trimmed(s.take(open));
            let remark = s.subrange(open + 1, s.len() - 1);
            let first = chars::cut_start(remark, CharClass::Space);
            if text::holds(remark, " "@) && first.len() > 0 && chars::alphabetic(first[0])
                && relates(front) && front.len() > 0 {
                front
            } else {
                s
            }
        },
        _ => s,
    }
}

/// The expression without what follows `phrase`, where something stands before it.
pub open spec fn without_tail(s: Seq<char>, phrase: Seq<char>) -> Seq<char> {
    match text::find(s, phrase) {
        Some(at) if chars::trimmed(s.take(at)).len() > 0 => chars::trimmed(s.take(at)),
        _ => s,
    }
}

/// The expression without a closing `for all ...`, and where asked without `for valid ...`.
pub open spec fn without_scope(s: Seq<char>, also_valid: bool) -> Seq<char> {
    if text::holds(s, " for all "@) {
        without_tail(s, " for all "@)
    } else if also_valid {
        without_tail(s, " for valid "@)
    } else {
        s
    }
}

/// The expression in its last form, or nothing where an implication leaves a bare truth value.
pub open spec fn finished(s: Seq<char>, also_valid: bool) -> Option<Seq<char>> {
    let c = implied(s);
    if text::holds(s, "=>"@) && bare_result_bool(c) {
        None
    } else {
        Some(
            text::single_spaced(without_scope(without_remark(text::single_spaced(c)), also_valid)),
        )
    }
}

fn implied_part(s: &str) -> (r: String)
    ensures
        r@ == implied(s@),
{
    proof {
        reveal_strlit("=>");
    }
    if let Some(at) = find_str(s, "=>") {
        let after = trim(skip_chars(s, at + 2).as_str());
        if !after.as_str().is_empty() && !contains(after.as_str(), "=>") && shorter_than(
            after.as_str(),
            200,
        ) {
            return after;
        }
    }
    s.to_owned()
}

fn drop_remark(s: &str) -> (r: String)
    ensures
        r@ == without_remark(s@),
{
    let v = to_chars(s);
    let _n: usize = v.len();
    proof {
        reveal_strlit(")");
        assert(")"@ =~= seq![')']);
    }
    if ends_with(s, ")") {
        if let Some(open) = rfind_pos(v.as_slice(), '(') {
            proof {
                assert(s@.skip(s@.len() - 1)[0] == s@.last());
            }
            let front = trim(take_chars(s, open).as_str());
            let remark = from_range(v.as_slice(), open + 1, v.len() - 1);
            let first = to_chars(trim_start_of(remark.as_str(), CharClass::Space).as_str());
            if contains(remark.as_str(), " ") && first.len() > 0 && crate::chars::is_alphabetic(
                first[0],
            ) && has_relation(front.as_str()) && !front.as_str().is_empty() {
                return front;
            }
        }
    }
    s.to_owned()
}

fn drop_tail(s: &str, phrase: &str) -> (r: String)
    ensures
        r@ == without_tail(s@, phrase@),
{
    if let Some(at) = find_str(s, phrase) {
        let front = trim(take_chars(s, at).as_str());
        if !front.as_str().is_empty() {
            return front;
        }
    }
    s.to_owned()
}

/// The expression in its last form, or nothing where an implication leaves a bare truth value.
pub fn finish(s: &str, also_valid: bool) -> (r: Option<String>)
    ensures
        patterns::group_view(r) == finished(s@, also_valid),
{
    let c = implied_part(s);
    if contains(s, "=>") && is_bare_result_bool(c.as_str()) {
        return None;
    }
    let c = single_space(c.as_str());
    let c = drop_remark(c.as_str());
    let c = if contains(c.as_str(), " for all ") {
        drop_tail(c.as_str(), " for all ")
    } else if also_valid {
        drop_tail(c.as_str(), " for valid ")
    } else {
        c
    };
    Some(single_space(c.as_str()))
}

/// An expression in its last form is handed out where it holds an operator, declined where it
/// refers to a field, a method or an element, and otherwise left undecided.
pub open spec fn judged(s: Seq<char>, access: bool) -> Option<Option<Seq<char>>> {
    if access {
        Some(None)
    } else if operates(s) {
        Some(Some(s))
    } else {
        None
    }
}

/// What `judged` decides.
pub enum Judgement {
    Declined,
    Accepted,
    Undecided,
}

/// Whether an expression in its last form is handed out.
pub fn judge(s: &str, access: bool) -> (r: Judgement)
    ensures
        judged(s@, access) == (match r {
            Judgement::Declined => Some(None),
            Judgement::Accepted => Some(Some(s@)),
            Judgement::Undecided => None::<Option<Seq<char>>>,
        }),
{
    if access {
        Judgement::Declined
    } else if has_operator(s) {
        Judgement::Accepted
    } else {
        Judgement::Undecided
    }
}

/// The core as the lexer reads it, with primed names spelled out. Nothing where there is no token.
pub open spec fn tokens_text(core: Seq<char>) -> Option<Seq<char>> {
    let ts = lexer::lexed_all(core, 0);
    if ts.len() == 0 {
        None
    } else {
        Some(
            text::replaced(
                text::replaced(lexer::rust_expr(ts), "script'"@, "script_out"@),
                "pattern'"@,
                "pattern_out"@,
            ),
        )
    }
}

/// The core as the lexer reads it.
pub fn text_of_tokens(core: &str) -> (r: Option<String>)
    ensures
        patterns::group_view(r) == tokens_text(core@),
{
    let mut lexer = Lexer::new(core);
    let tokens = lexer.lex();
    proof {
        assert(lexer::lexemes(tokens@).len() == tokens@.len());
    }
    if tokens.len() == 0 {
        return None;
    }
    let rust = tokens_to_rust_expr(tokens.as_slice());
    let rust = replace(rust.as_str(), "script'", "script_out");
    Some(replace(rust.as_str(), "pattern'", "pattern_out"))
}

/// The core with its commands replaced one by one and other backslashes dropped.
pub open spec fn commands_replaced(core: Seq<char>) -> Seq<char> {
    let s = text::replaced(core, r"\implies"@, " => "@);
    let s = text::replaced(s, r"\Rightarrow"@, " => "@);
    let s = text::replaced(s, r"\iff"@, " == "@);
    let s = text::replaced(s, r"\land"@, " && "@);
    let s = text::replaced(s, r"\lor"@, " || "@);
    let s = text::replaced(s, r"\geq"@, " >= "@);
    let s = text::replaced(s, r"\leq"@, " <= "@);
    let s = text::replaced(s, r"\neq"@, " != "@);
    let s = text::replaced(s, r"\_"@, "_"@);
    text::replaced(s, r"\"@, " "@)
}

/// The core with its commands replaced one by one and other backslashes dropped.
pub fn replace_commands(core: &str) -> (r: String)
    ensures
        r@ == commands_replaced(core@),
{
    let s = replace(core, r"\implies", " => ");
    let s = replace(s.as_str(), r"\Rightarrow", " => ");
    let s = replace(s.as_str(), r"\iff", " == ");
    let s = replace(s.as_str(), r"\land", " && ");
    let s = replace(s.as_str(), r"\lor", " || ");
    let s = replace(s.as_str(), r"\geq", " >= ");
    let s = replace(s.as_str(), r"\leq", " <= ");
    let s = replace(s.as_str(), r"\neq", " != ");
    let s = replace(s.as_str(), r"\_", "_");
    replace(s.as_str(), r"\", " ")
}

/// `s` with the arguments of the result dropped, and without blanks around it.
pub open spec fn arguments_dropped(s: Seq<char>) -> Seq<char> {
    chars::trimmed(patterns::pattern_replaced(RESULT_CALL_ARGS@, s, "result"@))
}

/// What the core becomes when its tokens are written out, where that decides.
pub open spec fn by_tokens(core: Seq<char>) -> Option<Option<Seq<char>>> {
    match tokens_text(core) {
        None => None,
        Some(s) => match finished(arguments_dropped(s), true) {
            None => Some(None),
            Some(e) => judged(e, member_access(e)),
        },
    }
}

/// What the core becomes when its commands are replaced.
pub open spec fn by_commands(core: Seq<char>) -> Option<Seq<char>> {
    match finished(arguments_dropped(commands_replaced(core)), false) {
        None => None,
        Some(e) => match judged(e, member_access(e)) {
            Some(Some(e)) => Some(chars::trimmed(e)),
            _ => None,
        },
    }
}

/// The core in plain signs, without font commands, subscripts in braces and closing braces.
pub open spec fn core_plain(core: Seq<char>) -> Seq<char> {
    without_closing(
        patterns::pattern_replaced(
            SUBSCRIPT@,
            notation_plain(patterns::pattern_replaced(TEXT_GROUP@, core, "$1"@)),
            "_$1"@,
        ),
    )
}

/// What the core in plain signs becomes.
pub open spec fn by_plain(s: Seq<char>) -> Option<Seq<char>> {
    if declined(s) {
        None
    } else {
        match enum_membership(s) {
            Some(d) => Some(d),
            None => match set_fallback(s) {
                Some(d) => Some(d),
                None => {
                    let core = text::replaced(s, r"\_"@, "_"@);
                    match by_tokens(core) {
                        Some(answer) => answer,
                        None => by_commands(core),
                    }
                },
            },
        }
    }
}

/// What a cleaned condition becomes.
pub open spec fn extraction_of(c: Seq<char>) -> Option<Seq<char>> {
    if noise(c) {
        Some("true"@)
    } else if quantified(c) {
        None
    } else {
        let s = sets_normal(c);
        match direct(s) {
            Some(answer) => Some(answer),
            None => match core_step(s) {
                StepView::Answer(answer) => Some(answer),
                StepView::Go(core) => if says_two_valued(core) {
                    Some(two_valued())
                } else {
                    by_plain(core_plain(core))
                },
            },
        }
    }
}

/// The Rust expression that a condition becomes, if any.
#[verifier::opaque]
pub open spec fn extraction(condition: Seq<char>) -> Option<Seq<char>> {
    extraction_of(cleaned(condition))
}

fn clean(condition: &str) -> (r: String)
    ensures
        r@ == cleaned(condition@),
{
    let s = drop_delimiters(condition);
    let s = if contains(s.as_str(), r"\text{") {
        replace_all(TEXT_GROUP, s.as_str(), "$1")
    } else {
        s
    };
    plain_braces(s.as_str())
}

fn find_forms(s: &str) -> (r: Findings)
    ensures
        r.equality == patterns::pattern_matches(RESULT_EQUALITY@, s@),
        r.inequality == patterns::pattern_matches(RESULT_INEQUALITY@, s@),
        patterns::group_view(r.lower_bits) == first_group(LOWER_BITS@, s@),
        r.one_bit == patterns::pattern_matches(ONE_BIT@, s@),
        r.option_set == patterns::pattern_matches(OPTION_SET@, s@),
{
    Findings {
        equality: is_match(RESULT_EQUALITY, s),
        inequality: is_match(RESULT_INEQUALITY, s),
        lower_bits: first_group_of(LOWER_BITS, s),
        one_bit: is_match(ONE_BIT, s),
        option_set: is_match(OPTION_SET, s),
    }
}

fn find_memberships(core: &str) -> (r: Memberships)
    ensures
        r == memberships(core@),
{
    Memberships {
        valid: is_match(VALID_SET, core),
        accepted: is_match(ACCEPTED_SET, core),
        truth: is_match(BOOL_SET, core),
        success: is_match(SUCCESS_SET, core),
    }
}

fn drop_arguments(s: &str) -> (r: String)
    ensures
        r@ == arguments_dropped(s@),
{
    trim(replace_all(RESULT_CALL_ARGS, s, "result").as_str())
}

fn answer_by_commands(core: &str) -> (r: Option<String>)
    ensures
        patterns::group_view(r) == by_commands(core@),
{
    let s = replace_commands(core);
    let s = drop_arguments(s.as_str());
    match finish(s.as_str(), false) {
        None => None,
        Some(e) => {
            let access = condition_has_member_access(e.as_str());
            match judge(e.as_str(), access) {
                Judgement::Accepted => Some(trim(e.as_str())),
                _ => None,
            }
        },
    }
}

fn answer_by_plain(s: &str) -> (r: Option<String>)
    ensures
        patterns::group_view(r) == by_plain(s@),
{
    if is_declined(s) {
        return None;
    }
    if let Some(d) = parse_enum_membership(s) {
        return Some(d);
    }
    if let Some(d) = set_fallback_of(s) {
        return Some(d);
    }
    let core = replace(s, r"\_", "_");
    if let Some(t) = text_of_tokens(core.as_str()) {
        let t = drop_arguments(t.as_str());
        match finish(t.as_str(), true) {
            None => {
                return None;
            },
            Some(e) => {
                let access = condition_has_member_access(e.as_str());
                match judge(e.as_str(), access) {
                    Judgement::Declined => {
                        return None;
                    },
                    Judgement::Accepted => {
                        return Some(e);
                    },
                    Judgement::Undecided => {},
                }
            },
        }
    }
    answer_by_commands(core.as_str())
}

/// The Rust expression that a condition of a specification becomes, if any.
pub fn extract_parseable_condition(condition: &str) -> (r: Option<String>)
    ensures
        patterns::group_view(r) == extraction(condition@),
{
    proof {
        reveal(extraction);
    }
    let c = clean(condition);
    if classify_noise(c.as_str()).is_some() {
        return Some("true".to_owned());
    }
    if contains(c.as_str(), r"\forall") || contains(c.as_str(), "∀") {
        return None;
    }
    let s = mend_sets(c.as_str());
    let s = replace_all(STRAY_VERIFY_SCRIPT, s.as_str(), "result(ss, spk, w, f)");
    let s = reduce_pairs(s.as_str());
    let found = find_forms(s.as_str());
    if let Some(answer) = direct_answer(s.as_str(), &found) {
        return Some(answer);
    }
    let core = match core_of(s.as_str()) {
        Step::Answer(answer) => {
            return Some(answer);
        },
        Step::Go(core) => core,
    };
    let m = find_memberships(core.as_str());
    let side = before_str(core.as_str(), r" \in ");
    let plain = replace_all(RESULT_CALL, side.as_str(), "result");
    let nested = replace_all(RESULT_CALL_NESTED, side.as_str(), "result");
    if is_two_valued(core.as_str(), m, plain.as_str(), nested.as_str()) {
        return Some("(result == true || result == false)".to_owned());
    }
    let core = replace_all(TEXT_GROUP, core.as_str(), "$1");
    let core = plain_notation(core.as_str());
    let core = replace_all(SUBSCRIPT, core.as_str(), "_$1");
    let core = drop_closing(core.as_str());
    answer_by_plain(core.as_str())
}

/// Whether a condition can be read.
pub open spec fn readable(condition: Seq<char>) -> bool {
    extraction(condition) is Some
}

/// Whether a condition can be read.
pub fn is_readable(c: &str) -> (r: bool)
    ensures
        r == readable(c@),
{
    extract_parseable_condition(c).is_some()
}

// ---------------------------------------------------------------------------
// Laws
// ---------------------------------------------------------------------------
/// A universally quantified condition that is no mere fragment is never turned into an expression.
pub proof fn law_quantified_is_declined(condition: Seq<char>)
    requires
        !noise(cleaned(condition)),
        quantified(cleaned(condition)),
    ensures
        extraction(condition) is None,
{
    reveal(extraction);
}

/// A fragment that states nothing always becomes `true`.
pub proof fn law_noise_is_true(condition: Seq<char>)
    requires
        noise(cleaned(condition)),
    ensures
        extraction(condition) == Some("true"@),
{
    reveal(extraction);
}

/// What is read from the tokens of a condition holds an operator and no two blanks side by side.
pub proof fn law_read_expression_operates(core: Seq<char>)
    ensures
        by_tokens(core) matches Some(Some(e)) ==> operates(e) && !text::holds(e, seq![' ', ' ']),
{
    if let Some(s) = tokens_text(core) {
        let c = implied(arguments_dropped(s));
        text::lemma_single_spaced(without_scope(without_remark(text::single_spaced(c)), true));
    }
}

/// The two ways of writing the braces of a set are read the same: a condition in plain braces and
/// one that differs from it only by backslashes before them give the same expression.
pub proof fn law_brace_styles_agree(plain: Seq<char>, escaped: Seq<char>)
    requires
        braces_plain(text_unwrapped(undelimited(escaped))) == braces_plain(
            text_unwrapped(undelimited(plain)),
        ),
    ensures
        extraction(escaped) == extraction(plain),
{
    reveal(extraction);
}

// ---------------------------------------------------------------------------
// The meaning of signs
// ---------------------------------------------------------------------------
/// A command of order, equality or logic and the operator of Rust of the same meaning.
pub open spec fn relation_means(p: Seq<char>, op: Seq<char>) -> bool {
    ||| p == r"\leq"@ && op == "<="@
    ||| p == r"\geq"@ && op == ">="@
    ||| p == r"\neq"@ && op == "!="@
    ||| p == r"\land"@ && op == "&&"@
    ||| p == r"\lor"@ && op == "||"@
    ||| (p == r"\implies"@ || p == r"\Rightarrow"@) && op == "=>"@
    ||| p == r"\iff"@ && op == "=="@
}

/// A command of arithmetic and the operator of Rust of the same meaning.
pub open spec fn arithmetic_means(p: Seq<char>, op: Seq<char>) -> bool {
    ||| (p == r"\cdot"@ || p == r"\times"@ || p == r"\ast"@) && op == "*"@
    ||| p == r"\div"@ && op == "/"@
}

/// A sign of logic and the operator of Rust of the same meaning.
pub open spec fn logic_sign_means(p: Seq<char>, op: Seq<char>) -> bool {
    ||| p == "\u{2227}"@ && op == "&&"@
    ||| p == "\u{2228}"@ && op == "||"@
    ||| (p == "\u{2192}"@ || p == "\u{21d2}"@) && op == "=>"@
    ||| (p == "\u{21d4}"@ || p == "\u{27fa}"@) && op == "=="@
}

/// A sign of arithmetic or order and the operator of Rust of the same meaning.
pub open spec fn plain_sign_means(p: Seq<char>, op: Seq<char>) -> bool {
    ||| p == "\u{2264}"@ && op == "<="@
    ||| p == "\u{2265}"@ && op == ">="@
    ||| p == "\u{2260}"@ && op == "!="@
    ||| p == "\u{2212}"@ && op == "-"@
    ||| (p == "\u{00b7}"@ || p == "\u{2219}"@ || p == "\u{2217}"@ || p == "\u{00d7}"@) && op == "*"@
}

/// A condition with one command of order, equality or logic becomes the condition with the operator of
/// the same meaning in its place.
pub proof fn law_commands_become_their_operators(
    a: Seq<char>,
    p: Seq<char>,
    op: Seq<char>,
    b: Seq<char>,
)
    requires
        text::all_plain(a),
        text::all_plain(b),
        relation_means(p, op),
    ensures
        commands_replaced(a + p + b) == a + (" "@ + op + " "@) + b,
{
    reveal_strlit(r"\implies");
    reveal_strlit(" => ");
    reveal_strlit(r"\Rightarrow");
    reveal_strlit(r"\iff");
    reveal_strlit(" == ");
    reveal_strlit(r"\land");
    reveal_strlit(" && ");
    reveal_strlit(r"\lor");
    reveal_strlit(" || ");
    reveal_strlit(r"\geq");
    reveal_strlit(" >= ");
    reveal_strlit(r"\leq");
    reveal_strlit(" <= ");
    reveal_strlit(r"\neq");
    reveal_strlit(" != ");
    reveal_strlit(r"\_");
    reveal_strlit("_");
    reveal_strlit(r"\");
    reveal_strlit(" ");
    reveal_strlit("<=");
    reveal_strlit(">=");
    reveal_strlit("!=");
    reveal_strlit("&&");
    reveal_strlit("||");
    reveal_strlit("=>");
    reveal_strlit("==");
    let w = " "@ + op + " "@;
    assert(text::all_plain(w));
    let t0 = a + p + b;
    assert(r"\leq"@[1] == 'l');
    assert(r"\leq"@[2] == 'e');
    assert(r"\geq"@[1] == 'g');
    assert(r"\geq"@[2] == 'e');
    assert(r"\neq"@[1] == 'n');
    assert(r"\neq"@[2] == 'e');
    assert(r"\land"@[1] == 'l');
    assert(r"\land"@[2] == 'a');
    assert(r"\lor"@[1] == 'l');
    assert(r"\lor"@[2] == 'o');
    assert(r"\implies"@[1] == 'i');
    assert(r"\implies"@[2] == 'm');
    assert(r"\Rightarrow"@[1] == 'R');
    assert(r"\Rightarrow"@[2] == 'i');
    assert(r"\iff"@[1] == 'i');
    assert(r"\iff"@[2] == 'f');
    assert(" => "@ =~= " "@ + "=>"@ + " "@);
    assert(" == "@ =~= " "@ + "=="@ + " "@);
    assert(" && "@ =~= " "@ + "&&"@ + " "@);
    assert(" || "@ =~= " "@ + "||"@ + " "@);
    assert(" >= "@ =~= " "@ + ">="@ + " "@);
    assert(" <= "@ =~= " "@ + "<="@ + " "@);
    assert(" != "@ =~= " "@ + "!="@ + " "@);
    assert(p != r"\implies"@ ==> text::told_apart(p, r"\implies"@));
    text::lemma_sign_step(a, p, w, b, t0, r"\implies"@, 0, " => "@);
    let t1 = text::replaced(t0, r"\implies"@, " => "@);
    assert(p != r"\Rightarrow"@ ==> text::told_apart(p, r"\Rightarrow"@));
    text::lemma_sign_step(a, p, w, b, t1, r"\Rightarrow"@, 0, " => "@);
    let t2 = text::replaced(t1, r"\Rightarrow"@, " => "@);
    assert(p != r"\iff"@ ==> text::told_apart(p, r"\iff"@));
    text::lemma_sign_step(a, p, w, b, t2, r"\iff"@, 0, " == "@);
    let t3 = text::replaced(t2, r"\iff"@, " == "@);
    assert(p != r"\land"@ ==> text::told_apart(p, r"\land"@));
    text::lemma_sign_step(a, p, w, b, t3, r"\land"@, 0, " && "@);
    let t4 = text::replaced(t3, r"\land"@, " && "@);
    assert(p != r"\lor"@ ==> text::told_apart(p, r"\lor"@));
    text::lemma_sign_step(a, p, w, b, t4, r"\lor"@, 0, " || "@);
    let t5 = text::replaced(t4, r"\lor"@, " || "@);
    assert(p != r"\geq"@ ==> text::told_apart(p, r"\geq"@));
    text::lemma_sign_step(a, p, w, b, t5, r"\geq"@, 0, " >= "@);
    let t6 = text::replaced(t5, r"\geq"@, " >= "@);
    assert(p != r"\leq"@ ==> text::told_apart(p, r"\leq"@));
    text::lemma_sign_step(a, p, w, b, t6, r"\leq"@, 0, " <= "@);
    let t7 = text::replaced(t6, r"\leq"@, " <= "@);
    assert(p != r"\neq"@ ==> text::told_apart(p, r"\neq"@));
    text::lemma_sign_step(a, p, w, b, t7, r"\neq"@, 0, " != "@);
    let t8 = text::replaced(t7, r"\neq"@, " != "@);
    assert(p != r"\_"@ ==> text::told_apart(p, r"\_"@));
    text::lemma_sign_step(a, p, w, b, t8, r"\_"@, 0, "_"@);
    let t9 = text::replaced(t8, r"\_"@, "_"@);
    text::lemma_sign_step(a, p, w, b, t9, r"\"@, 0, " "@);
    let t10 = text::replaced(t9, r"\"@, " "@);
}

/// The condition of an equivalence with one command of order or logic becomes the one with the
/// operator of the same meaning in its place.
pub proof fn law_equivalence_keeps_its_operators(
    a: Seq<char>,
    p: Seq<char>,
    op: Seq<char>,
    b: Seq<char>,
)
    requires
        text::all_plain(a),
        text::all_plain(b),
        relation_means(p, op),
        op == "&&"@ || op == "||"@ || op == ">="@ || op == "<="@,
    ensures
        equivalence_inner(a + p + b) == a + (" "@ + op + " "@) + b,
{
    reveal_strlit(r"\lor");
    reveal_strlit(" || ");
    reveal_strlit(r"\land");
    reveal_strlit(" && ");
    reveal_strlit(r"\geq");
    reveal_strlit(" >= ");
    reveal_strlit(r"\leq");
    reveal_strlit(" <= ");
    reveal_strlit(r"min\_h");
    reveal_strlit("min_h");
    reveal_strlit(r"min\_t");
    reveal_strlit("min_t");
    reveal_strlit(r"\");
    reveal_strlit(" ");
    reveal_strlit("<=");
    reveal_strlit(">=");
    reveal_strlit("!=");
    reveal_strlit("&&");
    reveal_strlit("||");
    reveal_strlit("=>");
    reveal_strlit("==");
    reveal_strlit(r"\neq");
    reveal_strlit(r"\implies");
    reveal_strlit(r"\Rightarrow");
    reveal_strlit(r"\iff");
    let w = " "@ + op + " "@;
    assert(text::all_plain(w));
    let t0 = a + p + b;
    assert(op[0] != '!' && op[0] != '=');
    assert(p == r"\leq"@ || p == r"\geq"@ || p == r"\land"@ || p == r"\lor"@);
    assert(r"\leq"@[1] == 'l');
    assert(r"\leq"@[2] == 'e');
    assert(r"\geq"@[1] == 'g');
    assert(r"\geq"@[2] == 'e');
    assert(r"\neq"@[1] == 'n');
    assert(r"\neq"@[2] == 'e');
    assert(r"\land"@[1] == 'l');
    assert(r"\land"@[2] == 'a');
    assert(r"\lor"@[1] == 'l');
    assert(r"\lor"@[2] == 'o');
    assert(r"\implies"@[1] == 'i');
    assert(r"\implies"@[2] == 'm');
    assert(r"\Rightarrow"@[1] == 'R');
    assert(r"\Rightarrow"@[2] == 'i');
    assert(r"\iff"@[1] == 'i');
    assert(r"\iff"@[2] == 'f');
    assert(" || "@ =~= " "@ + "||"@ + " "@);
    assert(" && "@ =~= " "@ + "&&"@ + " "@);
    assert(" >= "@ =~= " "@ + ">="@ + " "@);
    assert(" <= "@ =~= " "@ + "<="@ + " "@);
    assert(p != r"\lor"@ ==> text::told_apart(p, r"\lor"@));
    text::lemma_sign_step(a, p, w, b, t0, r"\lor"@, 0, " || "@);
    let t1 = text::replaced(t0, r"\lor"@, " || "@);
    assert(p != r"\land"@ ==> text::told_apart(p, r"\land"@));
    text::lemma_sign_step(a, p, w, b, t1, r"\land"@, 0, " && "@);
    let t2 = text::replaced(t1, r"\land"@, " && "@);
    assert(p != r"\geq"@ ==> text::told_apart(p, r"\geq"@));
    text::lemma_sign_step(a, p, w, b, t2, r"\geq"@, 0, " >= "@);
    let t3 = text::replaced(t2, r"\geq"@, " >= "@);
    assert(p != r"\leq"@ ==> text::told_apart(p, r"\leq"@));
    text::lemma_sign_step(a, p, w, b, t3, r"\leq"@, 0, " <= "@);
    let t4 = text::replaced(t3, r"\leq"@, " <= "@);
    assert(text::differ_at(p, r"min\_h"@, 3, 1));
    text::lemma_sign_step(a, p, w, b, t4, r"min\_h"@, 3, "min_h"@);
    let t5 = text::replaced(t4, r"min\_h"@, "min_h"@);
    assert(text::differ_at(p, r"min\_t"@, 3, 1));
    text::lemma_sign_step(a, p, w, b, t5, r"min\_t"@, 3, "min_t"@);
    let t6 = text::replaced(t5, r"min\_t"@, "min_t"@);
    text::lemma_sign_step(a, p, w, b, t6, r"\"@, 0, " "@);
    let t7 = text::replaced(t6, r"\"@, " "@);
}

proof fn lemma_signs_plain(a: Seq<char>, p: Seq<char>, w: Seq<char>, b: Seq<char>)
    requires
        text::all_plain(a),
        text::all_plain(b),
        plain_sign_means(p, w) || arithmetic_means(p, w) || exists|op: Seq<char>|
            logic_sign_means(p, op) && w == " "@ + op + " "@,
    ensures
        signs_plain(a + p + b) == if plain_sign_means(p, w) || p == r"\cdot"@ || p == r"\times"@ {
            a + w + b
        } else {
            a + p + b
        },
{
    reveal_strlit(r"\cdot");
    reveal_strlit(r"\cdotp");
    reveal_strlit("\u{00b7}");
    reveal_strlit("\u{2219}");
    reveal_strlit("\u{2217}");
    reveal_strlit(r"\times");
    reveal_strlit("\u{00d7}");
    reveal_strlit("\u{2264}");
    reveal_strlit("\u{2265}");
    reveal_strlit("\u{2260}");
    reveal_strlit("\u{2212}");
    reveal_strlit(r"\ast");
    reveal_strlit(r"\div");
    reveal_strlit("\u{2227}");
    reveal_strlit("\u{2228}");
    reveal_strlit("\u{2192}");
    reveal_strlit("\u{21d2}");
    reveal_strlit("\u{21d4}");
    reveal_strlit("\u{27fa}");
    reveal_strlit("*");
    reveal_strlit("/");
    reveal_strlit("-");
    reveal_strlit(" ");
    reveal_strlit("<=");
    reveal_strlit(">=");
    reveal_strlit("!=");
    reveal_strlit("&&");
    reveal_strlit("||");
    reveal_strlit("=>");
    reveal_strlit("==");
    assert(text::all_plain(w));
    let t0 = a + p + b;
    assert(r"\cdot"@[1] == 'c');
    assert(r"\cdot"@[2] == 'd');
    assert(r"\times"@[1] == 't');
    assert(r"\times"@[2] == 'i');
    assert(r"\ast"@[1] == 'a');
    assert(r"\ast"@[2] == 's');
    assert(r"\div"@[1] == 'd');
    assert(r"\div"@[2] == 'i');
    assert("\u{2264}"@[0] == '\u{2264}');
    assert("\u{2265}"@[0] == '\u{2265}');
    assert("\u{2260}"@[0] == '\u{2260}');
    assert("\u{2227}"@[0] == '\u{2227}');
    assert("\u{2228}"@[0] == '\u{2228}');
    assert("\u{2192}"@[0] == '\u{2192}');
    assert("\u{21d2}"@[0] == '\u{21d2}');
    assert("\u{21d4}"@[0] == '\u{21d4}');
    assert("\u{27fa}"@[0] == '\u{27fa}');
    assert("\u{00b7}"@[0] == '\u{00b7}');
    assert("\u{2219}"@[0] == '\u{2219}');
    assert("\u{2217}"@[0] == '\u{2217}');
    assert("\u{00d7}"@[0] == '\u{00d7}');
    assert("\u{2212}"@[0] == '\u{2212}');
    assert(p != r"\cdot"@ ==> text::told_apart(p, r"\cdot"@));
    text::lemma_sign_step(a, p, w, b, t0, r"\cdot"@, 0, "*"@);
    let t1 = text::replaced(t0, r"\cdot"@, "*"@);
    assert(p != r"\cdot"@ ==> text::told_apart(p, r"\cdotp"@));
    text::lemma_sign_step(a, p, w, b, t1, r"\cdotp"@, 0, "*"@);
    let t2 = text::replaced(t1, r"\cdotp"@, "*"@);
    assert(p != "\u{00b7}"@ ==> text::told_apart(p, "\u{00b7}"@));
    text::lemma_sign_step(a, p, w, b, t2, "\u{00b7}"@, 0, "*"@);
    let t3 = text::replaced(t2, "\u{00b7}"@, "*"@);
    assert(p != "\u{2219}"@ ==> text::told_apart(p, "\u{2219}"@));
    text::lemma_sign_step(a, p, w, b, t3, "\u{2219}"@, 0, "*"@);
    let t4 = text::replaced(t3, "\u{2219}"@, "*"@);
    assert(p != "\u{2217}"@ ==> text::told_apart(p, "\u{2217}"@));
    text::lemma_sign_step(a, p, w, b, t4, "\u{2217}"@, 0, "*"@);
    let t5 = text::replaced(t4, "\u{2217}"@, "*"@);
    assert(p != r"\times"@ ==> text::told_apart(p, r"\times"@));
    text::lemma_sign_step(a, p, w, b, t5, r"\times"@, 0, "*"@);
    let t6 = text::replaced(t5, r"\times"@, "*"@);
    assert(p != "\u{00d7}"@ ==> text::told_apart(p, "\u{00d7}"@));
    text::lemma_sign_step(a, p, w, b, t6, "\u{00d7}"@, 0, "*"@);
    let t7 = text::replaced(t6, "\u{00d7}"@, "*"@);
    assert(p != "\u{2264}"@ ==> text::told_apart(p, "\u{2264}"@));
    text::lemma_sign_step(a, p, w, b, t7, "\u{2264}"@, 0, "<="@);
    let t8 = text::replaced(t7, "\u{2264}"@, "<="@);
    assert(p != "\u{2265}"@ ==> text::told_apart(p, "\u{2265}"@));
    text::lemma_sign_step(a, p, w, b, t8, "\u{2265}"@, 0, ">="@);
    let t9 = text::replaced(t8, "\u{2265}"@, ">="@);
    assert(p != "\u{2260}"@ ==> text::told_apart(p, "\u{2260}"@));
    text::lemma_sign_step(a, p, w, b, t9, "\u{2260}"@, 0, "!="@);
    let t10 = text::replaced(t9, "\u{2260}"@, "!="@);
    assert(p != "\u{2212}"@ ==> text::told_apart(p, "\u{2212}"@));
    text::lemma_sign_step(a, p, w, b, t10, "\u{2212}"@, 0, "-"@);
    let t11 = text::replaced(t10, "\u{2212}"@, "-"@);
}

proof fn lemma_logic_plain(a: Seq<char>, p: Seq<char>, w: Seq<char>, b: Seq<char>, t: Seq<char>)
    requires
        text::all_plain(a),
        text::all_plain(b),
        plain_sign_means(p, w) || arithmetic_means(p, w) || exists|op: Seq<char>|
            logic_sign_means(p, op) && w == " "@ + op + " "@,
        t == a + p + b || t == a + w + b,
    ensures
        logic_plain(t) == if plain_sign_means(p, w) || arithmetic_means(p, w) {
            t
        } else {
            a + w + b
        },
{
    reveal_strlit("\u{2227}");
    reveal_strlit("\u{2228}");
    reveal_strlit("\u{2192}");
    reveal_strlit("\u{21d2}");
    reveal_strlit("\u{21d4}");
    reveal_strlit("\u{27fa}");
    reveal_strlit(r"\cdot");
    reveal_strlit(r"\times");
    reveal_strlit(r"\ast");
    reveal_strlit(r"\div");
    reveal_strlit("\u{2264}");
    reveal_strlit("\u{2265}");
    reveal_strlit("\u{2260}");
    reveal_strlit("\u{00b7}");
    reveal_strlit("\u{2219}");
    reveal_strlit("\u{2217}");
    reveal_strlit("\u{00d7}");
    reveal_strlit("\u{2212}");
    reveal_strlit(" && ");
    reveal_strlit(" || ");
    reveal_strlit(" => ");
    reveal_strlit(" == ");
    reveal_strlit("*");
    reveal_strlit("/");
    reveal_strlit("-");
    reveal_strlit(" ");
    reveal_strlit("<=");
    reveal_strlit(">=");
    reveal_strlit("!=");
    reveal_strlit("&&");
    reveal_strlit("||");
    reveal_strlit("=>");
    reveal_strlit("==");
    assert(text::all_plain(w));
    assert(r"\cdot"@[1] == 'c');
    assert(r"\cdot"@[2] == 'd');
    assert(r"\times"@[1] == 't');
    assert(r"\times"@[2] == 'i');
    assert(r"\ast"@[1] == 'a');
    assert(r"\ast"@[2] == 's');
    assert(r"\div"@[1] == 'd');
    assert(r"\div"@[2] == 'i');
    assert("\u{2264}"@[0] == '\u{2264}');
    assert("\u{2265}"@[0] == '\u{2265}');
    assert("\u{2260}"@[0] == '\u{2260}');
    assert("\u{2227}"@[0] == '\u{2227}');
    assert("\u{2228}"@[0] == '\u{2228}');
    assert("\u{2192}"@[0] == '\u{2192}');
    assert("\u{21d2}"@[0] == '\u{21d2}');
    assert("\u{21d4}"@[0] == '\u{21d4}');
    assert("\u{27fa}"@[0] == '\u{27fa}');
    assert("\u{00b7}"@[0] == '\u{00b7}');
    assert("\u{2219}"@[0] == '\u{2219}');
    assert("\u{2217}"@[0] == '\u{2217}');
    assert("\u{00d7}"@[0] == '\u{00d7}');
    assert("\u{2212}"@[0] == '\u{2212}');
    assert(" && "@ =~= " "@ + "&&"@ + " "@);
    assert(" || "@ =~= " "@ + "||"@ + " "@);
    assert(" => "@ =~= " "@ + "=>"@ + " "@);
    assert(" == "@ =~= " "@ + "=="@ + " "@);
    assert(p != "\u{2227}"@ ==> text::told_apart(p, "\u{2227}"@));
    text::lemma_sign_step(a, p, w, b, t, "\u{2227}"@, 0, " && "@);
    let t1 = text::replaced(t, "\u{2227}"@, " && "@);
    assert(p != "\u{2228}"@ ==> text::told_apart(p, "\u{2228}"@));
    text::lemma_sign_step(a, p, w, b, t1, "\u{2228}"@, 0, " || "@);
    let t2 = text::replaced(t1, "\u{2228}"@, " || "@);
    assert(p != "\u{2192}"@ ==> text::told_apart(p, "\u{2192}"@));
    text::lemma_sign_step(a, p, w, b, t2, "\u{2192}"@, 0, " => "@);
    let t3 = text::replaced(t2, "\u{2192}"@, " => "@);
    assert(p != "\u{21d2}"@ ==> text::told_apart(p, "\u{21d2}"@));
    text::lemma_sign_step(a, p, w, b, t3, "\u{21d2}"@, 0, " => "@);
    let t4 = text::replaced(t3, "\u{21d2}"@, " => "@);
    assert(p != "\u{21d4}"@ ==> text::told_apart(p, "\u{21d4}"@));
    text::lemma_sign_step(a, p, w, b, t4, "\u{21d4}"@, 0, " == "@);
    let t5 = text::replaced(t4, "\u{21d4}"@, " == "@);
    assert(p != "\u{27fa}"@ ==> text::told_apart(p, "\u{27fa}"@));
    text::lemma_sign_step(a, p, w, b, t5, "\u{27fa}"@, 0, " == "@);
    let t6 = text::replaced(t5, "\u{27fa}"@, " == "@);
}

proof fn lemma_commands_plain(a: Seq<char>, p: Seq<char>, w: Seq<char>, b: Seq<char>, t: Seq<char>)
    requires
        text::all_plain(a),
        text::all_plain(b),
        plain_sign_means(p, w) || arithmetic_means(p, w) || exists|op: Seq<char>|
            logic_sign_means(p, op) && w == " "@ + op + " "@,
        t == a + w + b || t == a + p + b && (p == r"\ast"@ || p == r"\div"@),
    ensures
        commands_plain(t) == a + w + b,
{
    reveal_strlit(r"\ast");
    reveal_strlit(r"\div");
    reveal_strlit(r"\left(");
    reveal_strlit(r"\right)");
    reveal_strlit(r"\left.");
    reveal_strlit(r"\right.");
    reveal_strlit(r"\ldots");
    reveal_strlit(r"\mathcal{US}");
    reveal_strlit(r"\mathcal{UC}");
    reveal_strlit(r"\mathcal{B}");
    reveal_strlit(r"\cdot");
    reveal_strlit(r"\times");
    reveal_strlit("\u{2264}");
    reveal_strlit("\u{2265}");
    reveal_strlit("\u{2260}");
    reveal_strlit("\u{2227}");
    reveal_strlit("\u{2228}");
    reveal_strlit("\u{2192}");
    reveal_strlit("\u{21d2}");
    reveal_strlit("\u{21d4}");
    reveal_strlit("\u{27fa}");
    reveal_strlit("\u{00b7}");
    reveal_strlit("\u{2219}");
    reveal_strlit("\u{2217}");
    reveal_strlit("\u{00d7}");
    reveal_strlit("\u{2212}");
    reveal_strlit("*");
    reveal_strlit("/");
    reveal_strlit("-");
    reveal_strlit(" ");
    reveal_strlit("<=");
    reveal_strlit(">=");
    reveal_strlit("!=");
    reveal_strlit("&&");
    reveal_strlit("||");
    reveal_strlit("=>");
    reveal_strlit("==");
    assert(text::all_plain(w));
    assert(r"\cdot"@[1] == 'c');
    assert(r"\cdot"@[2] == 'd');
    assert(r"\times"@[1] == 't');
    assert(r"\times"@[2] == 'i');
    assert(r"\ast"@[1] == 'a');
    assert(r"\ast"@[2] == 's');
    assert(r"\div"@[1] == 'd');
    assert(r"\div"@[2] == 'i');
    assert("\u{2264}"@[0] == '\u{2264}');
    assert("\u{2265}"@[0] == '\u{2265}');
    assert("\u{2260}"@[0] == '\u{2260}');
    assert("\u{2227}"@[0] == '\u{2227}');
    assert("\u{2228}"@[0] == '\u{2228}');
    assert("\u{2192}"@[0] == '\u{2192}');
    assert("\u{21d2}"@[0] == '\u{21d2}');
    assert("\u{21d4}"@[0] == '\u{21d4}');
    assert("\u{27fa}"@[0] == '\u{27fa}');
    assert("\u{00b7}"@[0] == '\u{00b7}');
    assert("\u{2219}"@[0] == '\u{2219}');
    assert("\u{2217}"@[0] == '\u{2217}');
    assert("\u{00d7}"@[0] == '\u{00d7}');
    assert("\u{2212}"@[0] == '\u{2212}');
    assert(p != r"\ast"@ ==> text::told_apart(p, r"\ast"@));
    text::lemma_sign_step(a, p, w, b, t, r"\ast"@, 0, "*"@);
    let t1 = text::replaced(t, r"\ast"@, "*"@);
    assert(p != r"\div"@ ==> text::told_apart(p, r"\div"@));
    text::lemma_sign_step(a, p, w, b, t1, r"\div"@, 0, "/"@);
    let t2 = text::replaced(t1, r"\div"@, "/"@);
    assert(p != r"\left("@ ==> text::told_apart(p, r"\left("@));
    text::lemma_sign_step(a, p, w, b, t2, r"\left("@, 0, "("@);
    let t3 = text::replaced(t2, r"\left("@, "("@);
    assert(p != r"\right)"@ ==> text::told_apart(p, r"\right)"@));
    text::lemma_sign_step(a, p, w, b, t3, r"\right)"@, 0, ")"@);
    let t4 = text::replaced(t3, r"\right)"@, ")"@);
    assert(p != r"\left."@ ==> text::told_apart(p, r"\left."@));
    text::lemma_sign_step(a, p, w, b, t4, r"\left."@, 0, ""@);
    let t5 = text::replaced(t4, r"\left."@, ""@);
    assert(p != r"\right."@ ==> text::told_apart(p, r"\right."@));
    text::lemma_sign_step(a, p, w, b, t5, r"\right."@, 0, ""@);
    let t6 = text::replaced(t5, r"\right."@, ""@);
    assert(p != r"\ldots"@ ==> text::told_apart(p, r"\ldots"@));
    text::lemma_sign_step(a, p, w, b, t6, r"\ldots"@, 0, ""@);
    let t7 = text::replaced(t6, r"\ldots"@, ""@);
    assert(p != r"\mathcal{US}"@ ==> text::told_apart(p, r"\mathcal{US}"@));
    text::lemma_sign_step(a, p, w, b, t7, r"\mathcal{US}"@, 0, "US"@);
    let t8 = text::replaced(t7, r"\mathcal{US}"@, "US"@);
    assert(p != r"\mathcal{UC}"@ ==> text::told_apart(p, r"\mathcal{UC}"@));
    text::lemma_sign_step(a, p, w, b, t8, r"\mathcal{UC}"@, 0, "UC"@);
    let t9 = text::replaced(t8, r"\mathcal{UC}"@, "UC"@);
    assert(p != r"\mathcal{B}"@ ==> text::told_apart(p, r"\mathcal{B}"@));
    text::lemma_sign_step(a, p, w, b, t9, r"\mathcal{B}"@, 0, "B"@);
    let t10 = text::replaced(t9, r"\mathcal{B}"@, "B"@);
}

/// A condition with one sign or command of arithmetic, order or logic becomes the condition with the
/// operator of the same meaning in its place.
pub proof fn law_signs_become_their_operators(
    a: Seq<char>,
    p: Seq<char>,
    op: Seq<char>,
    b: Seq<char>,
)
    requires
        text::all_plain(a),
        text::all_plain(b),
    ensures
        plain_sign_means(p, op) || arithmetic_means(p, op) ==> notation_plain(a + p + b) == a + op + b,
        logic_sign_means(p, op) ==> notation_plain(a + p + b) == a + (" "@ + op + " "@) + b,
{
    if plain_sign_means(p, op) || arithmetic_means(p, op) {
        lemma_signs_plain(a, p, op, b);
        let t = signs_plain(a + p + b);
        lemma_logic_plain(a, p, op, b, t);
        lemma_commands_plain(a, p, op, b, t);
    }
    if logic_sign_means(p, op) {
        let w = " "@ + op + " "@;
        reveal_strlit("\u{2227}");
        reveal_strlit("\u{2228}");
        reveal_strlit("\u{2192}");
        reveal_strlit("\u{21d2}");
        reveal_strlit("\u{21d4}");
        reveal_strlit("\u{27fa}");
        reveal_strlit(r"\cdot");
        reveal_strlit(r"\times");
        reveal_strlit(r"\ast");
        reveal_strlit(r"\div");
        reveal_strlit("\u{2264}");
        reveal_strlit("\u{2265}");
        reveal_strlit("\u{2260}");
        reveal_strlit("\u{00b7}");
        reveal_strlit("\u{2219}");
        reveal_strlit("\u{2217}");
        reveal_strlit("\u{00d7}");
        reveal_strlit("\u{2212}");
        assert(r"\cdot"@[1] == 'c');
        assert(r"\cdot"@[2] == 'd');
        assert(r"\times"@[1] == 't');
        assert(r"\times"@[2] == 'i');
        assert(r"\ast"@[1] == 'a');
        assert(r"\ast"@[2] == 's');
        assert(r"\div"@[1] == 'd');
        assert(r"\div"@[2] == 'i');
        assert("\u{2264}"@[0] == '\u{2264}');
        assert("\u{2265}"@[0] == '\u{2265}');
        assert("\u{2260}"@[0] == '\u{2260}');
        assert("\u{2227}"@[0] == '\u{2227}');
        assert("\u{2228}"@[0] == '\u{2228}');
        assert("\u{2192}"@[0] == '\u{2192}');
        assert("\u{21d2}"@[0] == '\u{21d2}');
        assert("\u{21d4}"@[0] == '\u{21d4}');
        assert("\u{27fa}"@[0] == '\u{27fa}');
        assert("\u{00b7}"@[0] == '\u{00b7}');
        assert("\u{2219}"@[0] == '\u{2219}');
        assert("\u{2217}"@[0] == '\u{2217}');
        assert("\u{00d7}"@[0] == '\u{00d7}');
        assert("\u{2212}"@[0] == '\u{2212}');
        lemma_signs_plain(a, p, w, b);
        lemma_logic_plain(a, p, w, b, a + p + b);
        lemma_commands_plain(a, p, w, b, a + w + b);
    }
}

/// The flag of a signature hash type adds to the type that it is put on, and the types without it
/// are numbered from one.
pub proof fn law_flag_adds_to_the_type(base: Seq<char>)
    requires
        base == "All"@ || base == "None"@ || base == "Single"@,
    ensures
        named_value(base) is Some,
        1 <= named_value(base)->0 <= 3,
        named_value(base + "AnyoneCanPay"@) == Some(
            named_value(base)->0 + named_value("AnyoneCanPay"@)->0,
        ),
        named_value("AnyoneCanPay"@) == Some(0x80int),
        named_value("All"@)->0 < named_value("None"@)->0 < named_value("Single"@)->0,
{
    reveal_strlit("AllLegacy");
    reveal_strlit("All");
    reveal_strlit("None");
    reveal_strlit("Single");
    reveal_strlit("AnyoneCanPay");
    reveal_strlit("AllAnyoneCanPay");
    reveal_strlit("NoneAnyoneCanPay");
    reveal_strlit("SingleAnyoneCanPay");
    reveal_strlit("AnyoneC");
    assert("AllLegacy"@.len() == 9 && "All"@.len() == 3 && "None"@.len() == 4 && "Single"@.len() == 6);
    assert("AnyoneCanPay"@.len() == 12 && "AllAnyoneCanPay"@.len() == 15);
    assert("NoneAnyoneCanPay"@.len() == 16 && "SingleAnyoneCanPay"@.len() == 18 && "AnyoneC"@.len() == 7);
    assert("All"@ + "AnyoneCanPay"@ =~= "AllAnyoneCanPay"@);
    assert("None"@ + "AnyoneCanPay"@ =~= "NoneAnyoneCanPay"@);
    assert("Single"@ + "AnyoneCanPay"@ =~= "SingleAnyoneCanPay"@);
}

/// The lower bits of a number are not negative and below the power of two of their number; of more
/// than sixty-four nothing is said.
pub proof fn law_lower_bits_are_bounded(n: nat)
    ensures
        bits_bound(Some(text::decimal(n))) == if n <= 64 {
            Some("result >= 0 && result < "@ + text::decimal(power2::pow2(n)))
        } else {
            None
        },
{
    numbers::law_decimal_is_read_back(n, 64);
}

/// A text without round brackets.
pub open spec fn unbracketed(s: Seq<char>) -> bool {
    forall|i: int| 0 <= i < s.len() ==> (#[trigger] s[i]) != '(' && s[i] != ')'
}

proof fn lemma_closing_passes(s: Seq<char>, p: int, q: int, depth: nat)
    requires
        0 <= p <= q <= s.len(),
        forall|i: int| p <= i < q ==> (#[trigger] s[i]) != '(' && s[i] != ')',
    ensures
        closing(s, p, depth) == closing(s, q, depth),
    decreases q - p,
{
    if p < q {
        lemma_closing_passes(s, p + 1, q, depth);
    }
}

/// A bracket is closed by the next closing one that belongs to no bracket opened in between.
pub proof fn law_brackets_are_matched(
    a: Seq<char>,
    b: Seq<char>,
    c: Seq<char>,
    rest: Seq<char>,
)
    requires
        unbracketed(a),
        unbracketed(b),
        unbracketed(c),
    ensures
        closing(a + seq![')'] + rest, 0, 0) == Some(a.len() as int),
        closing(a + seq!['('] + b + seq![')'] + c + seq![')'] + rest, 0, 0) == Some(
            (a.len() + b.len() + c.len() + 2) as int,
        ),
        closing(a, 0, 0) is None,
{
    let s = a + seq![')'] + rest;
    let n = a.len() as int;
    assert forall|i: int| 0 <= i < n implies (#[trigger] s[i]) != '(' && s[i] != ')' by {
        assert(s[i] == a[i]);
    }
    lemma_closing_passes(s, 0, n, 0);
    assert(s[n] == ')');
    lemma_closing_passes(a, 0, n, 0);
    let t = a + seq!['('] + b + seq![')'] + c + seq![')'] + rest;
    let k = n + 1 + b.len();
    let e = k + 1 + c.len();
    assert(t[n] == '(' && t[k] == ')' && t[e] == ')');
    assert forall|i: int| 0 <= i < n implies (#[trigger] t[i]) != '(' && t[i] != ')' by {
        assert(t[i] == a[i]);
    }
    assert forall|i: int| n + 1 <= i < k implies (#[trigger] t[i]) != '(' && t[i] != ')' by {
        assert(t[i] == b[i - n - 1]);
    }
    assert forall|i: int| k + 1 <= i < e implies (#[trigger] t[i]) != '(' && t[i] != ')' by {
        assert(t[i] == c[i - k - 1]);
    }
    lemma_closing_passes(t, 0, n, 0);
    lemma_closing_passes(t, n + 1, k, 1);
    lemma_closing_passes(t, k + 1, e, 0);
    assert(closing(t, n, 0) == closing(t, n + 1, 1));
    assert(closing(t, k, 1) == closing(t, k + 1, 0));
}

/// Of an implication with a short conclusion the conclusion is read.
pub proof fn law_conclusion_is_read(a: Seq<char>, b: Seq<char>)
    requires
        forall|i: int| 0 <= i < a.len() ==> a[i] != '=',
        chars::trimmed(b).len() > 0,
        !text::holds(chars::trimmed(b), "=>"@),
        !text::holds(chars::trimmed(b), "⟹"@),
        text::byte_len(chars::trimmed(b)) < 100,
    ensures
        implied(a + "=>"@ + b) == chars::trimmed(b),
        concluded(a + "=>"@ + b) == chars::trimmed(b),
{
    reveal_strlit("=>");
    text::lemma_find_behind(a, "=>"@, b);
    text::lemma_find_has(chars::trimmed(b), "⟹"@);
}

/// A condition without an arrow is not an implication and stays as it is.
pub proof fn law_condition_without_arrow_stays(s: Seq<char>)
    requires
        !text::holds(s, "=>"@),
        !text::holds(s, "⟹"@),
    ensures
        implied(s) == s,
        concluded(s) == s,
{
    text::lemma_find_has(s, "=>"@);
    text::lemma_find_has(s, "⟹"@);
}

/// A set of named values becomes one alternative for each of its members, in their order: that the
/// result is the value of the member.
pub proof fn law_members_become_alternatives(members: Seq<Seq<char>>, n: int)
    requires
        0 <= n <= members.len(),
        forall|i: int|
            0 <= i < members.len() ==> named_member(member_name(#[trigger] members[i])) && named_value(
                member_name(members[i]),
            ) is Some,
    ensures
        disjunction_of(members, n) matches Some(done) && done.len() == n && forall|i: int|
            0 <= i < n ==> #[trigger] done[i] == "result == "@ + text::decimal_int(
                named_value(member_name(members[i]))->0,
            ),
    decreases n,
{
    if n > 0 {
        law_members_become_alternatives(members, n - 1);
        let m = members[n - 1];
        assert(named_member(member_name(m)));
    }
}

/// One member that is not known leaves the whole set unread.
pub proof fn law_unknown_member_leaves_the_set(members: Seq<Seq<char>>, n: int, i: int)
    requires
        0 <= i < n <= members.len(),
        named_member(member_name(members[i])),
        named_value(member_name(members[i])) is None,
    ensures
        disjunction_of(members, n) is None,
    decreases n,
{
    if i < n - 1 {
        law_unknown_member_leaves_the_set(members, n - 1, i);
    }
}

/// An expression with an operator of order, equality or arithmetic operates, and one without any
/// sign of these does not.
pub proof fn law_operators_are_seen(a: Seq<char>, op: Seq<char>, b: Seq<char>, s: Seq<char>)
    requires
        op == ">="@ || op == "<="@ || op == ">"@ || op == "<"@ || op == "=="@ || op == "!="@ || op == "*"@
            || op == "/"@ || op == "+"@ || op == "-"@,
    ensures
        operates(a + op + b),
        op != "*"@ && op != "/"@ && op != "+"@ && op != "-"@ ==> relates(a + op + b),
        (forall|i: int|
            0 <= i < s.len() ==> (#[trigger] s[i]) != '>' && s[i] != '<' && s[i] != '=' && s[i] != '*' && s[i]
                != '/' && s[i] != '+' && s[i] != '-') ==> !operates(s),
{
    reveal_strlit(">=");
    reveal_strlit("<=");
    reveal_strlit(">");
    reveal_strlit("<");
    reveal_strlit("==");
    reveal_strlit("!=");
    reveal_strlit("*");
    reveal_strlit("/");
    reveal_strlit("+");
    reveal_strlit("-");
    let t = a + op + b;
    let n = a.len() as int;
    assert(t.subrange(n, n + op.len()) =~= op);
    assert(text::occurs_at(t, op, n));
    if op == ">="@ {
        assert(t.subrange(n, n + 1) =~= ">"@);
        assert(text::occurs_at(t, ">"@, n));
    }
    if op == "<="@ {
        assert(t.subrange(n, n + 1) =~= "<"@);
        assert(text::occurs_at(t, "<"@, n));
    }
    if forall|i: int|
        0 <= i < s.len() ==> (#[trigger] s[i]) != '>' && s[i] != '<' && s[i] != '=' && s[i] != '*' && s[i]
            != '/' && s[i] != '+' && s[i] != '-' {
        text::lemma_lacks(s, ">"@, 0);
        text::lemma_lacks(s, "<"@, 0);
        text::lemma_lacks(s, "=="@, 0);
        text::lemma_lacks(s, "!="@, 1);
        text::lemma_lacks(s, "*"@, 0);
        text::lemma_lacks(s, "/"@, 0);
        text::lemma_lacks(s, "+"@, 0);
        text::lemma_lacks(s, "-"@, 0);
    }
}

} // verus!
