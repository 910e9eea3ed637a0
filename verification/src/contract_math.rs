//! Statements of the specification as contracts on a function of the code.
use vstd::prelude::*;
use crate::ast::{FnItem, Type, TypeArg};
use crate::patterns;
use crate::patterns::{escape, replace_all};
use crate::text;
use crate::text::{cat, cat3, replace, same};

verus! {

/// A number of elements.
pub const ANY_CARDINALITY: &'static str = r"\|([^|]+)\|";

/// The number of elements of a view.
pub const VIEW_LENGTH: &'static str = r"(\w+)@\.len\(\)";

/// A view before the call.
pub const OLD_VIEW: &'static str = r"old\((\w+)@\)";

/// Whether a type is a tuple, or a `Result` of one.
pub open spec fn gives_tuple(t: Type) -> bool {
    match t {
        Type::Tuple(_) => true,
        Type::Path(name, Some(args)) => name@ == "Result"@ && args@.len() > 0 && (match args@[0] {
            TypeArg::Type(u) => u is Tuple,
            TypeArg::Other => false,
        }),
        _ => false,
    }
}

/// Whether a function returns a tuple, or a `Result` of one.
pub open spec fn returns_tuple(f: FnItem) -> bool {
    match f.output {
        Some(t) => gives_tuple(t),
        None => false,
    }
}

/// Whether a function returns a tuple, or a `Result` of one.
pub fn is_tuple_function(f: &FnItem) -> (r: bool)
    ensures
        r == returns_tuple(*f),
{
    match &f.output {
        Some(Type::Tuple(_)) => true,
        Some(Type::Path(name, Some(args))) => {
            if same(name.as_str(), "Result") && args.len() > 0 {
                match &args[0] {
                    TypeArg::Type(Type::Tuple(_)) => true,
                    _ => false,
                }
            } else {
                false
            }
        },
        _ => false,
    }
}

/// A statement with the names of the constants, and with operators of Rust.
pub open spec fn with_operators(math: Seq<char>) -> Seq<char> {
    let a = text::replaced(math, "12.5 \\times C"@, "INITIAL_SUBSIDY / 4"@);
    let b = text::replaced(a, "50 \\times C"@, "INITIAL_SUBSIDY"@);
    let c = text::replaced(b, "25 \\times C"@, "INITIAL_SUBSIDY / 2"@);
    let d = text::replaced(c, " = "@, " == "@);
    let e = text::replaced(d, "\\geq"@, ">="@);
    let f = text::replaced(e, "\\leq"@, "<="@);
    let g = text::replaced(f, "\\implies"@, "==>"@);
    let h = text::replaced(g, "\\iff"@, "=="@);
    let i = text::replaced(h, "\\land"@, "&&"@);
    let j = text::replaced(i, "\\lor"@, "||"@);
    let k = text::replaced(j, "\\times"@, "*"@);
    let l = text::replaced(k, "\\text{"@, ""@);
    text::replaced(l, "}"@, ""@)
}

/// A statement with the names of the constants, and with operators of Rust.
pub fn put_operators(math: &str) -> (r: String)
    ensures
        r@ == with_operators(math@),
{
    let a = replace(math, "12.5 \\times C", "INITIAL_SUBSIDY / 4");
    let b = replace(a.as_str(), "50 \\times C", "INITIAL_SUBSIDY");
    let c = replace(b.as_str(), "25 \\times C", "INITIAL_SUBSIDY / 2");
    let d = replace(c.as_str(), " = ", " == ");
    let e = replace(d.as_str(), "\\geq", ">=");
    let f = replace(e.as_str(), "\\leq", "<=");
    let g = replace(f.as_str(), "\\implies", "==>");
    let h = replace(g.as_str(), "\\iff", "==");
    let i = replace(h.as_str(), "\\land", "&&");
    let j = replace(i.as_str(), "\\lor", "||");
    let k = replace(j.as_str(), "\\times", "*");
    let l = replace(k.as_str(), "\\text{", "");
    replace(l.as_str(), "}", "")
}

/// A call of the function, or its name alone.
pub open spec fn call_pattern(name: Seq<char>) -> Seq<char> {
    r"\b"@ + patterns::pattern_escaped(name) + r"(?:\([^()]*\))?"@
}

/// What a call of the function becomes.
pub open spec fn call_value(tuple: bool) -> Seq<char> {
    if tuple {
        "match result { Ok(_) => true, Err(_) => true }"@
    } else {
        "*result"@
    }
}

/// A statement with the parameters of the function: a single one for the height, or else the usual
/// ones.
pub open spec fn with_parameters(s: Seq<char>, params: Seq<Seq<char>>) -> Seq<char> {
    if params.len() == 1 {
        text::replaced(s, "h"@, "*"@ + params[0])
    } else {
        text::replaced(
            text::replaced(text::replaced(s, "h"@, "*height"@), "tx"@, "*tx"@),
            "us"@,
            "*utxo_set"@,
        )
    }
}

/// A statement with the parameters of the function.
pub fn put_parameters(s: &str, params: &Vec<String>) -> (r: String)
    ensures
        r@ == with_parameters(s@, text::views(params@)),
{
    proof {
        assert(text::views(params@).len() == params@.len());
    }
    if params.len() == 1 {
        proof {
            assert(text::views(params@)[0] == params@[0]@);
        }
        let own = cat("*", params[0].as_str());
        replace(s, "h", own.as_str())
    } else {
        let a = replace(s, "h", "*height");
        let b = replace(a.as_str(), "tx", "*tx");
        replace(b.as_str(), "us", "*utxo_set")
    }
}

/// A statement with what is left of the notation of formulas in Rust, up to the numbers of elements.
pub open spec fn with_notation(s: Seq<char>) -> Seq<char> {
    let a = text::replaced(s, "MAX\\_MONEY"@, "MAX_MONEY"@);
    let b = text::replaced(a, "H"@, "HALVING_INTERVAL"@);
    let c = text::replaced(b, "\\mathbb{N}"@, "Natural"@);
    let d = text::replaced(c, "\\mathbb{Z}"@, "Integer"@);
    let e = text::replaced(d, "\\["@, "["@);
    text::replaced(e, "\\]"@, "]"@)
}

/// A statement with what is left of the notation of formulas in Rust, up to the numbers of elements.
pub fn put_notation(s: &str) -> (r: String)
    ensures
        r@ == with_notation(s@),
{
    let a = replace(s, "MAX\\_MONEY", "MAX_MONEY");
    let b = replace(a.as_str(), "H", "HALVING_INTERVAL");
    let c = replace(b.as_str(), "\\mathbb{N}", "Natural");
    let d = replace(c.as_str(), "\\mathbb{Z}", "Integer");
    let e = replace(d.as_str(), "\\[", "[");
    replace(e.as_str(), "\\]", "]")
}

/// A statement without dollar signs, and with powers and views in Rust.
pub open spec fn without_dollars(s: Seq<char>) -> Seq<char> {
    let a = text::replaced(s, "0^{32}"@, "[0u8; 32]"@);
    let b = text::replaced(a, "2^{32} - 1"@, "0xffffffff"@);
    let c = text::replaced(b, "$"@, ""@);
    text::replaced(c, "@"@, "*"@)
}

/// A statement without dollar signs, and with powers and views in Rust.
pub fn drop_dollars(s: &str) -> (r: String)
    ensures
        r@ == without_dollars(s@),
{
    let a = replace(s, "0^{32}", "[0u8; 32]");
    let b = replace(a.as_str(), "2^{32} - 1", "0xffffffff");
    let c = replace(b.as_str(), "$", "");
    replace(c.as_str(), "@", "*")
}

/// What a statement with the operators of Rust becomes once `called` is it with the calls replaced.
pub open spec fn rest_translated(called: Seq<char>, params: Seq<Seq<char>>) -> Seq<char> {
    let a = with_notation(with_parameters(called, params));
    let b = patterns::pattern_replaced(ANY_CARDINALITY@, a, "$1.len()"@);
    let c = without_dollars(b);
    let d = patterns::pattern_replaced(VIEW_LENGTH@, c, "$1.len()"@);
    patterns::pattern_replaced(OLD_VIEW@, d, "old(*$1)"@)
}

/// A statement on the function `name` of the specification as a contract on a function with parameters
/// `params`.
pub open spec fn math_translated(
    math: Seq<char>,
    name: Seq<char>,
    params: Seq<Seq<char>>,
    tuple: bool,
) -> Seq<char> {
    rest_translated(
        patterns::pattern_replaced(call_pattern(name), with_operators(math), call_value(tuple)),
        params,
    )
}

/// A statement on the function `func_name` of the specification as a contract on a function with
/// parameters `params`. A call becomes the result: `$\text{GetBlockSubsidy}(h) \geq 0$` becomes
/// `*result >= 0`, and `$h = 0 \implies \text{GetBlockSubsidy}(h) = 50 \times C$` becomes
/// `*height == 0 ==> *result == INITIAL_SUBSIDY` where the parameter is `height`.
pub fn translate_math_to_rust_contract(
    math_expr: &str,
    func_name: &str,
    params: &Vec<String>,
    tuple: bool,
) -> (r: String)
    ensures
        r@ == math_translated(math_expr@, func_name@, text::views(params@), tuple),
{
    let a = put_operators(math_expr);
    let own = escape(func_name);
    let pattern = cat3(r"\b", own.as_str(), r"(?:\([^()]*\))?");
    let b = if tuple {
        replace_all(
            pattern.as_str(),
            a.as_str(),
            "match result { Ok(_) => true, Err(_) => true }",
        )
    } else {
        replace_all(pattern.as_str(), a.as_str(), "*result")
    };
    let c = put_parameters(b.as_str(), params);
    let d = put_notation(c.as_str());
    let e = replace_all(ANY_CARDINALITY, d.as_str(), "$1.len()");
    let f = drop_dollars(e.as_str());
    let g = replace_all(VIEW_LENGTH, f.as_str(), "$1.len()");
    replace_all(OLD_VIEW, g.as_str(), "old(*$1)")
}

/// A command of a statement and the operator that means the same in a contract.
pub open spec fn operator_means(p: Seq<char>, op: Seq<char>) -> bool {
    ||| p == "\\geq"@ && op == ">="@
    ||| p == "\\leq"@ && op == "<="@
    ||| p == "\\implies"@ && op == "==>"@
    ||| p == "\\iff"@ && op == "=="@
    ||| p == "\\land"@ && op == "&&"@
    ||| p == "\\lor"@ && op == "||"@
    ||| p == "\\times"@ && op == "*"@
}

/// A text without commands, equals signs and closing braces.
pub open spec fn without_commands(s: Seq<char>) -> bool {
    text::all_plain(s) && forall|i: int| 0 <= i < s.len() ==> (#[trigger] s[i]) != '=' && s[i] != '}'
}

proof fn lemma_times_without_coin(a: Seq<char>, b: Seq<char>, q: Seq<char>, v: Seq<char>, k: int)
    requires
        without_commands(a),
        without_commands(b),
        !text::starts(b, " C"@),
        0 <= k,
        q.len() == k + 8,
        q[k] == '\\',
        q[k + 6] == ' ',
        q[k + 7] == 'C',
    ensures
        text::replaced(a + "\\times"@ + b, q, v) == a + "\\times"@ + b,
{
    reveal_strlit("\\times");
    reveal_strlit(" C");
    let p = "\\times"@;
    let t = a + p + b;
    let n = a.len() as int;
    if text::holds(t, q) {
        let i = choose|i: int| text::occurs_at(t, q, i);
        assert(t.subrange(i, i + q.len())[k] == t[i + k]);
        if i + k < n {
            assert(t[i + k] == a[i + k]);
        } else if n + 6 <= i + k {
            assert(t[i + k] == b[i + k - n - 6]);
        } else {
            assert(t[i + k] == p[i + k - n]);
        }
        assert(i + k == n);
        assert(t.subrange(i, i + q.len())[k + 6] == t[n + 6]);
        assert(t.subrange(i, i + q.len())[k + 7] == t[n + 7]);
        assert(b.take(2) =~= " C"@);
    }
    text::lemma_absent(t, q, v);
}

/// A statement with one command of comparison, logic or arithmetic becomes the statement with the
/// operator of the same meaning in its place. Only a multiple of a coin has a name of its own.
pub proof fn law_commands_become_their_operators(
    a: Seq<char>,
    p: Seq<char>,
    w: Seq<char>,
    b: Seq<char>,
)
    requires
        without_commands(a),
        without_commands(b),
        operator_means(p, w),
        p == "\\times"@ ==> !text::starts(b, " C"@),
    ensures
        with_operators(a + p + b) == a + w + b,
{
    reveal_strlit("12.5 \\times C");
    reveal_strlit("INITIAL_SUBSIDY / 4");
    reveal_strlit("50 \\times C");
    reveal_strlit("INITIAL_SUBSIDY");
    reveal_strlit("25 \\times C");
    reveal_strlit("INITIAL_SUBSIDY / 2");
    reveal_strlit(" = ");
    reveal_strlit(" == ");
    reveal_strlit("\\geq");
    reveal_strlit(">=");
    reveal_strlit("\\leq");
    reveal_strlit("<=");
    reveal_strlit("\\implies");
    reveal_strlit("==>");
    reveal_strlit("\\iff");
    reveal_strlit("==");
    reveal_strlit("\\land");
    reveal_strlit("&&");
    reveal_strlit("\\lor");
    reveal_strlit("||");
    reveal_strlit("\\times");
    reveal_strlit("*");
    reveal_strlit("\\text{");
    reveal_strlit("");
    reveal_strlit("}");
    assert("\\geq"@[1] == 'g' && "\\geq"@[2] == 'e');
    assert("\\leq"@[1] == 'l' && "\\leq"@[2] == 'e');
    assert("\\implies"@[1] == 'i' && "\\implies"@[2] == 'm');
    assert("\\iff"@[1] == 'i' && "\\iff"@[2] == 'f');
    assert("\\land"@[1] == 'l' && "\\land"@[2] == 'a');
    assert("\\lor"@[1] == 'l' && "\\lor"@[2] == 'o');
    assert("\\times"@[1] == 't' && "\\times"@[2] == 'i');
    assert(text::all_plain(w));
    let t0 = a + p + b;
    assert(p != "\\times"@ ==> text::differ_at(p, "12.5 \\times C"@, 5, 1) || text::differ_at(p, "12.5 \\times C"@, 5, 2));
    if p == "\\times"@ {
        lemma_times_without_coin(a, b, "12.5 \\times C"@, "INITIAL_SUBSIDY / 4"@, 5);
    } else {
        text::lemma_sign_step(a, p, w, b, t0, "12.5 \\times C"@, 5, "INITIAL_SUBSIDY / 4"@);
    }
    let t1 = text::replaced(t0, "12.5 \\times C"@, "INITIAL_SUBSIDY / 4"@);
    assert(p != "\\times"@ ==> text::differ_at(p, "50 \\times C"@, 3, 1) || text::differ_at(p, "50 \\times C"@, 3, 2));
    if p == "\\times"@ {
        lemma_times_without_coin(a, b, "50 \\times C"@, "INITIAL_SUBSIDY"@, 3);
    } else {
        text::lemma_sign_step(a, p, w, b, t1, "50 \\times C"@, 3, "INITIAL_SUBSIDY"@);
    }
    let t2 = text::replaced(t1, "50 \\times C"@, "INITIAL_SUBSIDY"@);
    assert(p != "\\times"@ ==> text::differ_at(p, "25 \\times C"@, 3, 1) || text::differ_at(p, "25 \\times C"@, 3, 2));
    if p == "\\times"@ {
        lemma_times_without_coin(a, b, "25 \\times C"@, "INITIAL_SUBSIDY / 2"@, 3);
    } else {
        text::lemma_sign_step(a, p, w, b, t2, "25 \\times C"@, 3, "INITIAL_SUBSIDY / 2"@);
    }
    let t3 = text::replaced(t2, "25 \\times C"@, "INITIAL_SUBSIDY / 2"@);
    text::lemma_lacks(t3, " = "@, 1);
    text::lemma_absent(t3, " = "@, " == "@);
    let t4 = text::replaced(t3, " = "@, " == "@);
    assert(p != "\\geq"@ ==> text::told_apart(p, "\\geq"@));
    text::lemma_sign_step(a, p, w, b, t4, "\\geq"@, 0, ">="@);
    let t5 = text::replaced(t4, "\\geq"@, ">="@);
    assert(p != "\\leq"@ ==> text::told_apart(p, "\\leq"@));
    text::lemma_sign_step(a, p, w, b, t5, "\\leq"@, 0, "<="@);
    let t6 = text::replaced(t5, "\\leq"@, "<="@);
    assert(p != "\\implies"@ ==> text::told_apart(p, "\\implies"@));
    text::lemma_sign_step(a, p, w, b, t6, "\\implies"@, 0, "==>"@);
    let t7 = text::replaced(t6, "\\implies"@, "==>"@);
    assert(p != "\\iff"@ ==> text::told_apart(p, "\\iff"@));
    text::lemma_sign_step(a, p, w, b, t7, "\\iff"@, 0, "=="@);
    let t8 = text::replaced(t7, "\\iff"@, "=="@);
    assert(p != "\\land"@ ==> text::told_apart(p, "\\land"@));
    text::lemma_sign_step(a, p, w, b, t8, "\\land"@, 0, "&&"@);
    let t9 = text::replaced(t8, "\\land"@, "&&"@);
    assert(p != "\\lor"@ ==> text::told_apart(p, "\\lor"@));
    text::lemma_sign_step(a, p, w, b, t9, "\\lor"@, 0, "||"@);
    let t10 = text::replaced(t9, "\\lor"@, "||"@);
    assert(p != "\\times"@ ==> text::told_apart(p, "\\times"@));
    text::lemma_sign_step(a, p, w, b, t10, "\\times"@, 0, "*"@);
    let t11 = text::replaced(t10, "\\times"@, "*"@);
    assert(p != "\\text{"@ ==> text::told_apart(p, "\\text{"@));
    text::lemma_sign_step(a, p, w, b, t11, "\\text{"@, 0, ""@);
    let t12 = text::replaced(t11, "\\text{"@, ""@);
    text::lemma_lacks(t12, "}"@, 0);
    text::lemma_absent(t12, "}"@, ""@);
    let t13 = text::replaced(t12, "}"@, ""@);
}

/// An equals sign between blanks is read as the comparison for equality.
pub proof fn law_equals_sign_is_equality(a: Seq<char>, b: Seq<char>)
    requires
        without_commands(a),
        without_commands(b),
    ensures
        with_operators(a + " = "@ + b) == a + " == "@ + b,
{
    reveal_strlit("12.5 \\times C");
    reveal_strlit("INITIAL_SUBSIDY / 4");
    reveal_strlit("50 \\times C");
    reveal_strlit("INITIAL_SUBSIDY");
    reveal_strlit("25 \\times C");
    reveal_strlit("INITIAL_SUBSIDY / 2");
    reveal_strlit(" = ");
    reveal_strlit(" == ");
    reveal_strlit("\\geq");
    reveal_strlit(">=");
    reveal_strlit("\\leq");
    reveal_strlit("<=");
    reveal_strlit("\\implies");
    reveal_strlit("==>");
    reveal_strlit("\\iff");
    reveal_strlit("==");
    reveal_strlit("\\land");
    reveal_strlit("&&");
    reveal_strlit("\\lor");
    reveal_strlit("||");
    reveal_strlit("\\times");
    reveal_strlit("*");
    reveal_strlit("\\text{");
    reveal_strlit("");
    reveal_strlit("}");
    let t0 = a + " = "@ + b;
    let w = a + " == "@ + b;
    text::lemma_lacks(t0, "12.5 \\times C"@, 5);
    text::lemma_absent(t0, "12.5 \\times C"@, "INITIAL_SUBSIDY / 4"@);
    text::lemma_lacks(t0, "50 \\times C"@, 3);
    text::lemma_absent(t0, "50 \\times C"@, "INITIAL_SUBSIDY"@);
    text::lemma_lacks(t0, "25 \\times C"@, 3);
    text::lemma_absent(t0, "25 \\times C"@, "INITIAL_SUBSIDY / 2"@);
    text::lemma_replaced_once(a, " = "@, b, " == "@, 1);
    text::lemma_lacks(w, "\\geq"@, 0);
    text::lemma_absent(w, "\\geq"@, ">="@);
    text::lemma_lacks(w, "\\leq"@, 0);
    text::lemma_absent(w, "\\leq"@, "<="@);
    text::lemma_lacks(w, "\\implies"@, 0);
    text::lemma_absent(w, "\\implies"@, "==>"@);
    text::lemma_lacks(w, "\\iff"@, 0);
    text::lemma_absent(w, "\\iff"@, "=="@);
    text::lemma_lacks(w, "\\land"@, 0);
    text::lemma_absent(w, "\\land"@, "&&"@);
    text::lemma_lacks(w, "\\lor"@, 0);
    text::lemma_absent(w, "\\lor"@, "||"@);
    text::lemma_lacks(w, "\\times"@, 0);
    text::lemma_absent(w, "\\times"@, "*"@);
    text::lemma_lacks(w, "\\text{"@, 0);
    text::lemma_absent(w, "\\text{"@, ""@);
    text::lemma_lacks(w, "}"@, 0);
    text::lemma_absent(w, "}"@, ""@);
}

} // verus!
