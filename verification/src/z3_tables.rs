//! What the translation to the solver knows of names, literals, patterns and types.
use vstd::prelude::*;
use crate::ast::{Arm, Expr, IntLit, Lit, Member, Pat, Path, Type, TypeArg};
use crate::chars;
use crate::chars::{trim_end_of, CharClass};
use crate::numbers;
use crate::numbers::parse_i64;
use crate::text;
use crate::text::{cat, cat3, count_text, from_range, join, replace, same, starts_with, to_chars};

verus! {

// ---------------------------------------------------------------------------
// Constants of the consensus rules
// ---------------------------------------------------------------------------
/// The value of a consensus constant.
pub open spec fn constant_value(name: Seq<char>) -> Option<i64> {
    if name == "INITIAL_SUBSIDY"@ {
        Some(5_000_000_000)
    } else if name == "MAX_MONEY"@ {
        Some(2_100_000_000_000_000)
    } else if name == "HALVING_INTERVAL"@ {
        Some(210_000)
    } else if name == "SATOSHIS_PER_BTC"@ {
        Some(100_000_000)
    } else if name == "MAX_BLOCK_SIZE"@ {
        Some(1_000_000)
    } else if name == "MAX_TX_SIZE"@ {
        Some(100_000)
    } else if name == "MAX_SCRIPT_SIZE"@ {
        Some(10_000)
    } else if name == "MAX_STACK_SIZE"@ {
        Some(1000)
    } else if name == "OP_1"@ {
        Some(0x51)
    } else if name == "OP_16"@ {
        Some(0x60)
    } else if name == "SEGWIT_P2WPKH_LENGTH"@ {
        Some(20)
    } else if name == "SEGWIT_P2WSH_LENGTH"@ {
        Some(32)
    } else if name == "TAPROOT_PROGRAM_LENGTH"@ {
        Some(32)
    } else if name == "TAPROOT_ACTIVATION_MAINNET"@ {
        Some(709_632)
    } else if name == "TAPROOT_ACTIVATION_TESTNET"@ {
        Some(2_011_968)
    } else if name == "TAPROOT_ACTIVATION_REGTEST"@ {
        Some(0)
    } else {
        None
    }
}

/// The value of a consensus constant, if `name` is one.
pub fn resolve_constant(name: &str) -> (r: Option<i64>)
    ensures
        r == constant_value(name@),
{
    if same(name, "INITIAL_SUBSIDY") {
        Some(5_000_000_000)
    } else if same(name, "MAX_MONEY") {
        Some(2_100_000_000_000_000)
    } else if same(name, "HALVING_INTERVAL") {
        Some(210_000)
    } else if same(name, "SATOSHIS_PER_BTC") {
        Some(100_000_000)
    } else if same(name, "MAX_BLOCK_SIZE") {
        Some(1_000_000)
    } else if same(name, "MAX_TX_SIZE") {
        Some(100_000)
    } else if same(name, "MAX_SCRIPT_SIZE") {
        Some(10_000)
    } else if same(name, "MAX_STACK_SIZE") {
        Some(1000)
    } else if same(name, "OP_1") {
        Some(0x51)
    } else if same(name, "OP_16") {
        Some(0x60)
    } else if same(name, "SEGWIT_P2WPKH_LENGTH") {
        Some(20)
    } else if same(name, "SEGWIT_P2WSH_LENGTH") {
        Some(32)
    } else if same(name, "TAPROOT_PROGRAM_LENGTH") {
        Some(32)
    } else if same(name, "TAPROOT_ACTIVATION_MAINNET") {
        Some(709_632)
    } else if same(name, "TAPROOT_ACTIVATION_TESTNET") {
        Some(2_011_968)
    } else if same(name, "TAPROOT_ACTIVATION_REGTEST") {
        Some(0)
    } else {
        None
    }
}

// ---------------------------------------------------------------------------
// Functions that the solver sees as uninterpreted
// ---------------------------------------------------------------------------
/// The solver's name for a function, and its number of arguments where that is fixed.
pub type Known = Option<(Seq<char>, Option<nat>)>;

/// What a call of `base` becomes, of the functions with a truth value.
pub open spec fn known_bool(base: Seq<char>) -> Known {
    if base == "check_proof_of_work"@ {
        Some(("check_pow"@, Some(1)))
    } else if base == "verify_tapscript_schnorr_signature"@ {
        Some(("verify_schnorr"@, None))
    } else if base == "is_standard_tx"@ {
        Some(("is_standard_tx"@, Some(1)))
    } else if base == "replacement_checks"@ {
        Some(("replacement_checks"@, Some(4)))
    } else if base == "eval_script"@ {
        Some(("eval_script"@, Some(4)))
    } else if base == "eval_script_inner"@ {
        Some(("eval_script_inner"@, Some(4)))
    } else if base == "eval_script_impl"@ {
        Some(("eval_script_impl"@, Some(4)))
    } else if base == "verify_schnorr"@ {
        Some(("verify_schnorr"@, Some(3)))
    } else {
        None
    }
}

/// What a call of `base` becomes, of the functions with one argument and an integer value.
pub open spec fn known_unary(base: Seq<char>) -> Option<Seq<char>> {
    if base == "serialize_transaction"@ {
        Some("serialize"@)
    } else if base == "digest"@ {
        Some("sha256_digest"@)
    } else if base == "hash256"@ || base == "sha256_hash"@ || base == "double_sha256_hash"@ || base
        == "calculate_tx_id"@ {
        Some("hash256"@)
    } else if base == "to_le_bytes"@ {
        Some("to_le_bytes"@)
    } else if base == "with_capacity"@ {
        Some("vec_with_capacity"@)
    } else if base == "get_locktime_type"@ {
        Some("locktime_type"@)
    } else if base == "serialize_header"@ {
        Some("serialize_header"@)
    } else if base == "calculate_transaction_size"@ {
        Some("tx_size"@)
    } else if base == "expand_target"@ {
        Some("expand_target"@)
    } else if base == "from_bytes"@ {
        Some("from_bytes"@)
    } else if base == "check_proof_of_work"@ {
        Some("check_pow"@)
    } else if base == "calculate_merkle_root"@ {
        Some("merkle_root"@)
    } else if base == "calculate_merkle_root_from_tx_ids"@ {
        Some("merkle_root_ids"@)
    } else if base == "merkle_tree_from_hashes"@ {
        Some("merkle_tree"@)
    } else {
        None
    }
}

/// What a call of `base` becomes, of the functions with two or more arguments and an integer value.
pub open spec fn known_wide(base: Seq<char>) -> Known {
    if base == "serialize_transaction_into"@ {
        Some(("serialize_into"@, Some(2)))
    } else if base == "apply_transaction"@ {
        Some(("apply_tx"@, Some(3)))
    } else if base == "check_tx_inputs"@ {
        Some(("check_tx_inputs"@, Some(3)))
    } else if base == "eval_script"@ {
        Some(("eval_script"@, Some(4)))
    } else if base == "get_next_work_required"@ || base == "get_next_work_required_corrected"@ {
        Some(("get_next_work"@, Some(2)))
    } else {
        None
    }
}

/// What a call of `base` becomes, of the functions with any number of arguments and an integer
/// value.
pub open spec fn known_open(base: Seq<char>) -> Option<Seq<char>> {
    if base == "apply_transaction_with_id"@ {
        Some("apply_tx_with_id"@)
    } else if base == "get_next_work_required_internal"@ {
        Some("get_next_work_internal"@)
    } else if base == "connect_block"@ || base == "connect_block_with_context"@ {
        Some("connect_block"@)
    } else if base == "connect_block_ibd"@ {
        Some("connect_block_ibd"@)
    } else if base == "connect_block_inner"@ {
        Some("connect_block_inner"@)
    } else if base == "validate_block"@ {
        Some("validate_block"@)
    } else if base == "validate_block_with_time_context"@ {
        Some("validate_block_ctx"@)
    } else if base == "validate_transaction"@ {
        Some("validate_tx"@)
    } else if base == "validate_block_header"@ {
        Some("validate_header"@)
    } else if base == "check_tx_inputs_with_utxos"@ {
        Some("check_tx_inputs"@)
    } else if base == "calculate_transaction_sighash"@ {
        Some("sighash"@)
    } else if base == "calculate_transaction_sighash_single_input"@ {
        Some("sighash_single"@)
    } else if base == "calculate_transaction_sighash_with_script_code"@ {
        Some("sighash_script"@)
    } else if base == "build_time_context"@ {
        Some("build_time_context"@)
    } else {
        None
    }
}

/// What a call of `base` becomes, of the functions with an integer value.
pub open spec fn known_int(base: Seq<char>) -> Known {
    match known_unary(base) {
        Some(n) => Some((n, Some(1))),
        None => match known_wide(base) {
            Some(k) => Some(k),
            None => match known_open(base) {
                Some(n) => Some((n, None)),
                None => None,
            },
        },
    }
}

/// The constant that stands for the value of an integer function.
pub open spec fn known_int_result(base: Seq<char>) -> Option<Seq<char>> {
    if base == "get_block_subsidy"@ || base == "total_supply"@ || base == "get_next_work_required"@
        || base == "expand_target"@ || base == "compress_target"@ || base == "difficulty_from_bits"@
        || base == "calculate_merkle_root"@ || base == "calculate_block_hash"@ {
        Some("call_"@ + base + "_result"@)
    } else if base == "extract_sequence_locktime_value"@ || base == "ExtractSequenceLocktimeValue"@ {
        Some("call_extract_sequence_locktime_value_result"@)
    } else if base == "get_median_time_past"@ || base == "GetMedianTimePast"@ {
        Some("call_get_median_time_past_result"@)
    } else {
        None
    }
}

/// The constant that stands for the value of a function with a truth value.
pub open spec fn known_bool_result(base: Seq<char>) -> Option<Seq<char>> {
    if base == "is_zero_hash"@ {
        Some("call_is_zero_hash_result"@)
    } else if base == "locktime_types_match"@ {
        Some("call_locktime_types_match_result"@)
    } else if base == "is_standard_script"@ {
        Some("call_is_standard_script_result"@)
    } else if base == "validate_taproot_script"@ {
        Some("call_validate_taproot_script_result"@)
    } else {
        None
    }
}

/// Whether `base` returns a deployment whose field `bit` is fifteen.
pub open spec fn known_deployment(base: Seq<char>) -> bool {
    base == "bip54_deployment_mainnet"@ || base == "bip54_deployment_testnet"@ || base
        == "bip54_deployment_regtest"@
}

/// Whether what was found is the entry of the table.
pub open spec fn is_known(r: Option<(&'static str, Option<usize>)>, k: Known) -> bool {
    match (r, k) {
        (Some((n, Some(a))), Some((m, Some(b)))) => n@ == m && a == b,
        (Some((n, None)), Some((m, None))) => n@ == m,
        (None, None) => true,
        _ => false,
    }
}

/// What a call of `base` becomes, of the functions with a truth value.
pub fn known_bool_uninterpreted_function(base: &str) -> (r: Option<(&'static str, Option<usize>)>)
    ensures
        is_known(r, known_bool(base@)),
{
    if same(base, "check_proof_of_work") {
        Some(("check_pow", Some(1)))
    } else if same(base, "verify_tapscript_schnorr_signature") {
        Some(("verify_schnorr", None))
    } else if same(base, "is_standard_tx") {
        Some(("is_standard_tx", Some(1)))
    } else if same(base, "replacement_checks") {
        Some(("replacement_checks", Some(4)))
    } else if same(base, "eval_script") {
        Some(("eval_script", Some(4)))
    } else if same(base, "eval_script_inner") {
        Some(("eval_script_inner", Some(4)))
    } else if same(base, "eval_script_impl") {
        Some(("eval_script_impl", Some(4)))
    } else if same(base, "verify_schnorr") {
        Some(("verify_schnorr", Some(3)))
    } else {
        None
    }
}

fn unary_name(base: &str) -> (r: Option<&'static str>)
    ensures
        match r {
            Some(n) => known_unary(base@) == Some(n@),
            None => known_unary(base@) is None,
        },
{
    if same(base, "serialize_transaction") {
        Some("serialize")
    } else if same(base, "digest") {
        Some("sha256_digest")
    } else if same(base, "hash256") || same(base, "sha256_hash") || same(base, "double_sha256_hash")
        || same(base, "calculate_tx_id") {
        Some("hash256")
    } else if same(base, "to_le_bytes") {
        Some("to_le_bytes")
    } else if same(base, "with_capacity") {
        Some("vec_with_capacity")
    } else if same(base, "get_locktime_type") {
        Some("locktime_type")
    } else if same(base, "serialize_header") {
        Some("serialize_header")
    } else if same(base, "calculate_transaction_size") {
        Some("tx_size")
    } else if same(base, "expand_target") {
        Some("expand_target")
    } else if same(base, "from_bytes") {
        Some("from_bytes")
    } else if same(base, "check_proof_of_work") {
        Some("check_pow")
    } else if same(base, "calculate_merkle_root") {
        Some("merkle_root")
    } else if same(base, "calculate_merkle_root_from_tx_ids") {
        Some("merkle_root_ids")
    } else if same(base, "merkle_tree_from_hashes") {
        Some("merkle_tree")
    } else {
        None
    }
}

fn wide_name(base: &str) -> (r: Option<(&'static str, Option<usize>)>)
    ensures
        is_known(r, known_wide(base@)),
{
    if same(base, "serialize_transaction_into") {
        Some(("serialize_into", Some(2)))
    } else if same(base, "apply_transaction") {
        Some(("apply_tx", Some(3)))
    } else if same(base, "check_tx_inputs") {
        Some(("check_tx_inputs", Some(3)))
    } else if same(base, "eval_script") {
        Some(("eval_script", Some(4)))
    } else if same(base, "get_next_work_required") || same(
        base,
        "get_next_work_required_corrected",
    ) {
        Some(("get_next_work", Some(2)))
    } else {
        None
    }
}

fn open_name(base: &str) -> (r: Option<&'static str>)
    ensures
        match r {
            Some(n) => known_open(base@) == Some(n@),
            None => known_open(base@) is None,
        },
{
    if same(base, "apply_transaction_with_id") {
        Some("apply_tx_with_id")
    } else if same(base, "get_next_work_required_internal") {
        Some("get_next_work_internal")
    } else if same(base, "connect_block") || same(base, "connect_block_with_context") {
        Some("connect_block")
    } else if same(base, "connect_block_ibd") {
        Some("connect_block_ibd")
    } else if same(base, "connect_block_inner") {
        Some("connect_block_inner")
    } else if same(base, "validate_block") {
        Some("validate_block")
    } else if same(base, "validate_block_with_time_context") {
        Some("validate_block_ctx")
    } else if same(base, "validate_transaction") {
        Some("validate_tx")
    } else if same(base, "validate_block_header") {
        Some("validate_header")
    } else if same(base, "check_tx_inputs_with_utxos") {
        Some("check_tx_inputs")
    } else if same(base, "calculate_transaction_sighash") {
        Some("sighash")
    } else if same(base, "calculate_transaction_sighash_single_input") {
        Some("sighash_single")
    } else if same(base, "calculate_transaction_sighash_with_script_code") {
        Some("sighash_script")
    } else if same(base, "build_time_context") {
        Some("build_time_context")
    } else {
        None
    }
}

/// What a call of `base` becomes, of the functions with an integer value.
pub fn known_uninterpreted_function(base: &str) -> (r: Option<(&'static str, Option<usize>)>)
    ensures
        is_known(r, known_int(base@)),
{
    if let Some(n) = unary_name(base) {
        return Some((n, Some(1)));
    }
    if let Some(k) = wide_name(base) {
        return Some(k);
    }
    match open_name(base) {
        Some(n) => Some((n, None)),
        None => None,
    }
}

/// The constant that stands for the value of an integer function.
pub fn known_int_returning_function(base: &str) -> (r: Option<String>)
    ensures
        match r {
            Some(n) => known_int_result(base@) == Some(n@),
            None => known_int_result(base@) is None,
        },
{
    if same(base, "get_block_subsidy") || same(base, "total_supply") || same(
        base,
        "get_next_work_required",
    ) || same(base, "expand_target") || same(base, "compress_target") || same(
        base,
        "difficulty_from_bits",
    ) || same(base, "calculate_merkle_root") || same(base, "calculate_block_hash") {
        Some(cat3("call_", base, "_result"))
    } else if same(base, "extract_sequence_locktime_value") || same(
        base,
        "ExtractSequenceLocktimeValue",
    ) {
        Some("call_extract_sequence_locktime_value_result".to_owned())
    } else if same(base, "get_median_time_past") || same(base, "GetMedianTimePast") {
        Some("call_get_median_time_past_result".to_owned())
    } else {
        None
    }
}

/// The constant that stands for the value of a function with a truth value.
pub fn known_bool_returning_function(base: &str) -> (r: Option<String>)
    ensures
        match r {
            Some(n) => known_bool_result(base@) == Some(n@),
            None => known_bool_result(base@) is None,
        },
{
    if same(base, "is_zero_hash") {
        Some("call_is_zero_hash_result".to_owned())
    } else if same(base, "locktime_types_match") {
        Some("call_locktime_types_match_result".to_owned())
    } else if same(base, "is_standard_script") {
        Some("call_is_standard_script_result".to_owned())
    } else if same(base, "validate_taproot_script") {
        Some("call_validate_taproot_script_result".to_owned())
    } else {
        None
    }
}

/// The fields with a fixed value of what `base` returns.
pub fn known_struct_field_function(base: &str) -> (r: Option<Vec<(&'static str, i64)>>)
    ensures
        r is Some <==> known_deployment(base@),
        r is Some ==> r->0@.len() == 1 && r->0@[0].0@ == "bit"@ && r->0@[0].1 == 15,
{
    if same(base, "bip54_deployment_mainnet") || same(base, "bip54_deployment_testnet") || same(
        base,
        "bip54_deployment_regtest",
    ) {
        Some(vec![("bit", 15i64)])
    } else {
        None
    }
}

// ---------------------------------------------------------------------------
// Literals
// ---------------------------------------------------------------------------
/// The digits behind a prefix, without the letters of a type at their end and without separators.
pub open spec fn bare_digits(rest: Seq<char>) -> Seq<char> {
    text::replaced(chars::cut_end(rest, CharClass::Letter), "_"@, ""@)
}

/// The value of an integer literal, where it fits an `i64`.
pub open spec fn lit_value(l: IntLit) -> Option<i64> {
    let s = l.text@;
    match numbers::i64_value(l.digits@, 10) {
        Some(v) => Some(v),
        None => if text::starts(s, "0x"@) || text::starts(s, "0X"@) {
            numbers::i64_value(bare_digits(s.skip(2)), 16)
        } else if text::starts(s, "0o"@) || text::starts(s, "0O"@) {
            numbers::i64_value(bare_digits(s.skip(2)), 8)
        } else if text::starts(s, "0b"@) || text::starts(s, "0B"@) {
            numbers::i64_value(bare_digits(s.skip(2)), 2)
        } else {
            None
        },
    }
}

/// The value of an integer literal, where it fits an `i64`.
pub fn parse_lit_int(l: &IntLit) -> (r: Option<i64>)
    ensures
        r == lit_value(*l),
{
    if let Some(v) = parse_i64(l.digits.as_str(), 10) {
        return Some(v);
    }
    let s = l.text.as_str();
    proof {
        reveal_strlit("0x");
        reveal_strlit("0X");
        reveal_strlit("0o");
        reveal_strlit("0O");
        reveal_strlit("0b");
        reveal_strlit("0B");
    }
    let radix: u32 = if starts_with(s, "0x") || starts_with(s, "0X") {
        16
    } else if starts_with(s, "0o") || starts_with(s, "0O") {
        8
    } else if starts_with(s, "0b") || starts_with(s, "0B") {
        2
    } else {
        return None;
    };
    let v = to_chars(s);
    let rest = from_range(v.as_slice(), 2, v.len());
    proof {
        assert(s@.subrange(2, s@.len() as int) =~= s@.skip(2));
    }
    let digits = trim_end_of(rest.as_str(), CharClass::Letter);
    let digits = replace(digits.as_str(), "_", "");
    parse_i64(digits.as_str(), radix)
}

/// The value of an expression that is an integer literal.
pub open spec fn literal_of(e: Expr) -> Option<i64> {
    match e {
        Expr::Lit(Lit::Int(l)) => lit_value(l),
        _ => None,
    }
}

/// The value of an expression that is an integer literal.
pub fn extract_int_literal(e: &Expr) -> (r: Option<i64>)
    ensures
        r == literal_of(*e),
{
    match e {
        Expr::Lit(Lit::Int(l)) => parse_lit_int(l),
        _ => None,
    }
}

// ---------------------------------------------------------------------------
// Names
// ---------------------------------------------------------------------------
/// The names of a path with `::` between them.
pub open spec fn path_name(p: Path) -> Seq<char> {
    text::joined(text::views(p.segments@), "::"@)
}

/// The last name of a path.
pub open spec fn path_last(p: Path) -> Seq<char> {
    if p.segments@.len() > 0 {
        p.segments@.last()@
    } else {
        seq![]
    }
}

/// The name of a field.
pub open spec fn member_name(m: Member) -> Seq<char> {
    match m {
        Member::Named(s) => s@,
        Member::Unnamed(i) => text::decimal(i as nat),
    }
}

/// The name under which the value that a chain of fields starts from and runs through is kept.
pub open spec fn field_base(e: Expr) -> Seq<char>
    decreases e,
{
    match e {
        Expr::Field(base, m) => field_base(*base) + "_"@ + member_name(m),
        Expr::Path(p) => path_name(p),
        _ => "_"@,
    }
}

/// The name of the constant that stands for a field.
pub open spec fn field_name(base: Expr, m: Member) -> Seq<char> {
    field_base(base) + "_"@ + member_name(m)
}

/// A name for what an expression denotes.
pub open spec fn hint(e: Expr) -> Seq<char>
    decreases e,
{
    match e {
        Expr::Path(p) => text::replaced(path_name(p), "::"@, "_"@),
        Expr::Field(base, m) => field_name(*base, m),
        Expr::MethodCall(receiver, _, _) => if hint(*receiver) == "x"@ {
            "m"@
        } else {
            hint(*receiver) + "_rcv"@
        },
        _ => "x"@,
    }
}

/// The name of the constant for the length of what has the name `base`.
pub open spec fn length_name(base: Seq<char>) -> Seq<char> {
    if base == "x"@ {
        "len_result"@
    } else {
        base + "_len"@
    }
}

/// The names of a path with `::` between them.
pub fn path_to_string(p: &Path) -> (r: String)
    ensures
        r@ == path_name(*p),
{
    join(p.segments.as_slice(), "::")
}

/// The last name of a path.
pub fn last_segment(p: &Path) -> (r: String)
    ensures
        r@ == path_last(*p),
{
    let n: usize = p.segments.len();
    if n > 0 {
        p.segments[n - 1].clone()
    } else {
        proof {
            assert(""@ =~= seq![]) by {
                reveal_strlit("");
            }
        }
        String::new()
    }
}

/// The name of a field.
pub fn member_to_string(m: &Member) -> (r: String)
    ensures
        r@ == member_name(*m),
{
    match m {
        Member::Named(s) => s.clone(),
        Member::Unnamed(i) => crate::text::decimal_of(*i as u128),
    }
}

fn field_base_name(e: &Expr) -> (r: String)
    ensures
        r@ == field_base(*e),
    decreases e,
{
    match e {
        Expr::Field(base, m) => {
            let b = field_base_name(base);
            let n = member_to_string(m);
            cat3(b.as_str(), "_", n.as_str())
        },
        Expr::Path(p) => path_to_string(p),
        _ => "_".to_owned(),
    }
}

/// The name of the constant that stands for a field.
pub fn field_expr_to_var_name(base: &Expr, m: &Member) -> (r: String)
    ensures
        r@ == field_name(*base, *m),
{
    let b = field_base_name(base);
    let n = member_to_string(m);
    cat3(b.as_str(), "_", n.as_str())
}

/// A name for what an expression denotes.
pub fn expr_to_var_hint(e: &Expr) -> (r: String)
    ensures
        r@ == hint(*e),
    decreases e,
{
    match e {
        Expr::Path(p) => replace(path_to_string(p).as_str(), "::", "_"),
        Expr::Field(base, m) => field_expr_to_var_name(base, m),
        Expr::MethodCall(receiver, _, _) => {
            let r = expr_to_var_hint(receiver);
            if same(r.as_str(), "x") {
                "m".to_owned()
            } else {
                cat(r.as_str(), "_rcv")
            }
        },
        _ => "x".to_owned(),
    }
}

/// The name of the constant for the length of what has the name `base`.
pub fn length_var_name(base: &str) -> (r: String)
    ensures
        r@ == length_name(base@),
{
    if same(base, "x") {
        "len_result".to_owned()
    } else {
        cat(base, "_len")
    }
}

/// `prefix` with the number `n` behind it.
pub fn numbered(prefix: &str, n: usize) -> (r: String)
    ensures
        r@ == prefix@ + text::decimal(n as nat),
{
    cat(prefix, count_text(n).as_str())
}

// ---------------------------------------------------------------------------
// Patterns
// ---------------------------------------------------------------------------
/// The name that a pattern of one name binds.
pub open spec fn pat_ident(p: Pat) -> Option<Seq<char>> {
    match p {
        Pat::Ident(s) => Some(s@),
        _ => None,
    }
}

/// Whether a pattern is `None`: by itself, or at the end of a path.
pub open spec fn none_pattern(p: Pat) -> bool {
    match p {
        Pat::Ident(s) => s@ == "None"@,
        Pat::Path(path) => path.segments@.len() > 0 && path_last(path) == "None"@,
        _ => false,
    }
}

/// What a `let` pattern of an option or a result means: the name that it binds, the suffix of the
/// truth constant that it tests, and whether it tests for truth.
pub open spec fn let_pattern(p: Pat) -> Option<(Option<Seq<char>>, Seq<char>, bool)> {
    match p {
        Pat::TupleStruct(path, elems) => {
            let v = path_last(path);
            if path.segments@.len() == 0 || elems@.len() != 1 {
                None
            } else if v == "Some"@ {
                match pat_ident(elems@[0]) {
                    Some(x) => Some((Some(x), "is_some"@, true)),
                    None => None,
                }
            } else if v == "Ok"@ {
                match pat_ident(elems@[0]) {
                    Some(x) => Some((Some(x), "is_ok"@, true)),
                    None => None,
                }
            } else if v == "Err"@ {
                Some((pat_ident(elems@[0]), "is_ok"@, false))
            } else {
                None
            }
        },
        _ => if none_pattern(p) {
            Some((None, "is_some"@, false))
        } else {
            None
        },
    }
}

/// The name that an arm `Some(x) => ..` or `Ok(x) => ..` binds.
pub open spec fn some_ok_arm(a: Arm) -> Option<Seq<char>> {
    match a.pat {
        Pat::TupleStruct(path, elems) => if path.segments@.len() > 0 && (path_last(path) == "Some"@
            || path_last(path) == "Ok"@) && elems@.len() == 1 {
            pat_ident(elems@[0])
        } else {
            None
        },
        _ => None,
    }
}

/// Whether an arm is `None => ..` or `Err(..) => ..`.
pub open spec fn none_err_arm(a: Arm) -> bool {
    match a.pat {
        Pat::TupleStruct(path, elems) => path.segments@.len() > 0 && path_last(path) == "Err"@
            && elems@.len() <= 1,
        p => none_pattern(p),
    }
}

/// A `let` pattern that was understood.
pub struct LetPattern {
    pub binds: Option<String>,
    pub suffix: &'static str,
    pub positive: bool,
}

/// The name that a pattern of one name binds.
pub fn pattern_ident(p: &Pat) -> (r: Option<String>)
    ensures
        match r {
            Some(s) => pat_ident(*p) == Some(s@),
            None => pat_ident(*p) is None,
        },
{
    match p {
        Pat::Ident(s) => Some(s.clone()),
        _ => None,
    }
}

fn is_none_pattern(p: &Pat) -> (r: bool)
    ensures
        r == none_pattern(*p),
{
    match p {
        Pat::Ident(s) => same(s.as_str(), "None"),
        Pat::Path(path) => path.segments.len() > 0 && same(last_segment(path).as_str(), "None"),
        _ => false,
    }
}

/// What a `let` pattern of an option or a result means.
pub fn parse_let_option_result_pat(p: &Pat) -> (r: Option<LetPattern>)
    ensures
        match r {
            Some(l) => let_pattern(*p) == Some(
                (
                    match l.binds {
                        Some(s) => Some(s@),
                        None => None,
                    },
                    l.suffix@,
                    l.positive,
                ),
            ),
            None => let_pattern(*p) is None,
        },
{
    match p {
        Pat::TupleStruct(path, elems) => {
            if path.segments.len() == 0 || elems.len() != 1 {
                return None;
            }
            let v = last_segment(path);
            let inner = pattern_ident(&elems[0]);
            if same(v.as_str(), "Some") {
                match inner {
                    Some(x) => Some(
                        LetPattern { binds: Some(x), suffix: "is_some", positive: true },
                    ),
                    None => None,
                }
            } else if same(v.as_str(), "Ok") {
                match inner {
                    Some(x) => Some(LetPattern { binds: Some(x), suffix: "is_ok", positive: true }),
                    None => None,
                }
            } else if same(v.as_str(), "Err") {
                Some(LetPattern { binds: inner, suffix: "is_ok", positive: false })
            } else {
                None
            }
        },
        _ => {
            if is_none_pattern(p) {
                Some(LetPattern { binds: None, suffix: "is_some", positive: false })
            } else {
                None
            }
        },
    }
}

/// The name that an arm `Some(x) => ..` or `Ok(x) => ..` binds.
pub fn parse_some_ok_arm(a: &Arm) -> (r: Option<String>)
    ensures
        match r {
            Some(s) => some_ok_arm(*a) == Some(s@),
            None => some_ok_arm(*a) is None,
        },
{
    match &a.pat {
        Pat::TupleStruct(path, elems) => {
            if path.segments.len() > 0 && elems.len() == 1 {
                let v = last_segment(path);
                if same(v.as_str(), "Some") || same(v.as_str(), "Ok") {
                    return pattern_ident(&elems[0]);
                }
            }
            None
        },
        _ => None,
    }
}

/// Whether an arm is `None => ..` or `Err(..) => ..`.
pub fn parse_none_err_arm(a: &Arm) -> (r: bool)
    ensures
        r == none_err_arm(*a),
{
    match &a.pat {
        Pat::TupleStruct(path, elems) => path.segments.len() > 0 && same(
            last_segment(path).as_str(),
            "Err",
        ) && elems.len() <= 1,
        p => is_none_pattern(p),
    }
}

// ---------------------------------------------------------------------------
// Types
// ---------------------------------------------------------------------------
/// `Result` or `Option`.
pub open spec fn wraps(name: Seq<char>) -> bool {
    name == "Result"@ || name == "Option"@
}

/// Whether a type is `bool`, a two-valued verdict, or wraps such a type.
pub open spec fn bool_like(t: Type) -> bool
    decreases t,
{
    match t {
        Type::Path(name, args) => {
            ||| name@ == "bool"@ || name@ == "ValidationResult"@ || name@ == "MempoolResult"@
            ||| wraps(name@) && (args matches Some(v) && exists|i: int|
                0 <= i < v@.len() && (#[trigger] v@[i] matches TypeArg::Type(u) && bool_like(u)))
        },
        _ => false,
    }
}

/// Whether a type is a `Result`, or an `Option` of one.
pub open spec fn result_like(t: Type) -> bool
    decreases t,
{
    match t {
        Type::Path(name, args) => {
            ||| name@ == "Result"@
            ||| name@ == "Option"@ && (args matches Some(v) && exists|i: int|
                0 <= i < v@.len() && (#[trigger] v@[i] matches TypeArg::Type(u) && result_like(u)))
        },
        _ => false,
    }
}

/// The signed integer types.
pub open spec fn signed_name(n: Seq<char>) -> bool {
    n == "i8"@ || n == "i16"@ || n == "i32"@ || n == "i64"@ || n == "i128"@ || n == "isize"@ || n
        == "Integer"@
}

/// The unsigned integer types.
pub open spec fn unsigned_name(n: Seq<char>) -> bool {
    n == "u8"@ || n == "u16"@ || n == "u32"@ || n == "u64"@ || n == "u128"@ || n == "usize"@ || n
        == "Natural"@
}

/// Whether the values of a type are modelled by integers that are not negative. Of `Result` and
/// `Option` the first argument decides; a tuple is looked at element by element elsewhere; every
/// other type that is not a signed integer is opaque and not negative.
pub open spec fn non_negative(t: Type) -> bool
    decreases t,
{
    match t {
        Type::Path(name, args) => if signed_name(name@) {
            false
        } else if unsigned_name(name@) {
            true
        } else if wraps(name@) || name@ == "error::Result"@ {
            match args {
                Some(v) => if v@.len() > 0 {
                    match v@[0] {
                        TypeArg::Type(u) => non_negative(u),
                        TypeArg::Other => false,
                    }
                } else {
                    false
                },
                None => false,
            }
        } else {
            true
        },
        Type::EmptyPath => false,
        Type::Tuple(_) => false,
        Type::Reference(u) => non_negative(*u),
        Type::Ptr(u) => non_negative(*u),
        _ => true,
    }
}

/// The elements of a tuple type, also of one inside `Result` or `Option`: of several arguments the
/// first that holds one.
pub open spec fn tuple_of(t: Type) -> Option<Seq<Type>>
    decreases t, 0int,
{
    match t {
        Type::Tuple(elems) => Some(elems@),
        Type::Path(name, args) => if wraps(name@) {
            match args {
                Some(v) => tuple_in(v, 0),
                None => None,
            }
        } else {
            None
        },
        _ => None,
    }
}

/// The elements of the first tuple type among the arguments from `i` on.
pub open spec fn tuple_in(v: Vec<TypeArg>, i: int) -> Option<Seq<Type>>
    decreases v, v@.len() - i,
{
    if i < 0 || i >= v@.len() {
        None
    } else {
        match v@[i] {
            TypeArg::Type(u) => match tuple_of(u) {
                Some(e) => Some(e),
                None => tuple_in(v, i + 1),
            },
            TypeArg::Other => tuple_in(v, i + 1),
        }
    }
}

/// Whether a type is `bool`, a two-valued verdict, or wraps such a type.
#[verifier::loop_isolation(false)]
pub fn returns_bool_like(t: &Type) -> (r: bool)
    ensures
        r == bool_like(*t),
    decreases t,
{
    match t {
        Type::Path(name, args) => {
            let n = name.as_str();
            if same(n, "bool") || same(n, "ValidationResult") || same(n, "MempoolResult") {
                return true;
            }
            if same(n, "Result") || same(n, "Option") {
                if let Some(v) = args {
                    let mut i: usize = 0;
                    while i < v.len()
                        invariant
                            i <= v.len(),
                            decreases_to!(t => v),
                            forall|j: int|
                                0 <= j < i ==> !(#[trigger] v@[j] matches TypeArg::Type(u)
                                    && bool_like(u)),
                        decreases v.len() - i,
                    {
                        if let TypeArg::Type(u) = &v[i] {
                            if returns_bool_like(u) {
                                return true;
                            }
                        }
                        i += 1;
                    }
                }
            }
            false
        },
        _ => false,
    }
}

/// Whether a type is a `Result`, or an `Option` of one.
#[verifier::loop_isolation(false)]
pub fn returns_result_or_option_result(t: &Type) -> (r: bool)
    ensures
        r == result_like(*t),
    decreases t,
{
    match t {
        Type::Path(name, args) => {
            let n = name.as_str();
            if same(n, "Result") {
                return true;
            }
            if same(n, "Option") {
                if let Some(v) = args {
                    let mut i: usize = 0;
                    while i < v.len()
                        invariant
                            i <= v.len(),
                            decreases_to!(t => v),
                            forall|j: int|
                                0 <= j < i ==> !(#[trigger] v@[j] matches TypeArg::Type(u)
                                    && result_like(u)),
                        decreases v.len() - i,
                    {
                        if let TypeArg::Type(u) = &v[i] {
                            if returns_result_or_option_result(u) {
                                return true;
                            }
                        }
                        i += 1;
                    }
                }
            }
            false
        },
        _ => false,
    }
}

/// Whether the values of a type are modelled by integers that are not negative.
pub fn is_unsigned_type(t: &Type) -> (r: bool)
    ensures
        r == non_negative(*t),
    decreases t,
{
    match t {
        Type::Path(name, args) => {
            let n = name.as_str();
            if same(n, "i8") || same(n, "i16") || same(n, "i32") || same(n, "i64") || same(
                n,
                "i128",
            ) || same(n, "isize") || same(n, "Integer") {
                return false;
            }
            if same(n, "u8") || same(n, "u16") || same(n, "u32") || same(n, "u64") || same(
                n,
                "u128",
            ) || same(n, "usize") || same(n, "Natural") {
                return true;
            }
            if same(n, "Result") || same(n, "Option") || same(n, "error::Result") {
                return match args {
                    Some(v) => if v.len() > 0 {
                        match &v[0] {
                            TypeArg::Type(u) => is_unsigned_type(u),
                            TypeArg::Other => false,
                        }
                    } else {
                        false
                    },
                    None => false,
                };
            }
            true
        },
        Type::EmptyPath => false,
        Type::Tuple(_) => false,
        Type::Reference(u) => is_unsigned_type(u),
        Type::Ptr(u) => is_unsigned_type(u),
        Type::Array => true,
        Type::Slice => true,
        Type::Other => true,
    }
}

/// The elements of a tuple type, also of one inside `Result` or `Option`.
#[verifier::loop_isolation(false)]
pub fn unwrap_to_tuple(t: &Type) -> (r: Option<&Vec<Type>>)
    ensures
        match r {
            Some(v) => tuple_of(*t) == Some(v@),
            None => tuple_of(*t) is None,
        },
    decreases t,
{
    match t {
        Type::Tuple(elems) => Some(elems),
        Type::Path(name, args) => {
            if same(name.as_str(), "Result") || same(name.as_str(), "Option") {
                if let Some(v) = args {
                    let mut i: usize = 0;
                    while i < v.len()
                        invariant
                            i <= v.len(),
                            decreases_to!(t => v),
                            tuple_in(*v, 0) == tuple_in(*v, i as int),
                        decreases v.len() - i,
                    {
                        if let TypeArg::Type(u) = &v[i] {
                            if let Some(e) = unwrap_to_tuple(u) {
                                return Some(e);
                            }
                        }
                        i += 1;
                    }
                }
            }
            None
        },
        _ => None,
    }
}

/// What holds of a value of the type, of the constant named `slot`, by its type alone.
pub open spec fn slot_contract(slot: Seq<char>, t: Type) -> Option<Seq<char>> {
    if bool_like(t) {
        Some(slot + " == true || "@ + slot + " == false"@)
    } else if non_negative(t) {
        Some(slot + " >= 0"@)
    } else {
        None
    }
}

/// What holds of the first `n` elements of a tuple by their types alone.
pub open spec fn tuple_contracts(elems: Seq<Type>, n: int) -> Seq<Seq<char>>
    decreases n,
{
    if n <= 0 || n > elems.len() {
        seq![]
    } else {
        let done = tuple_contracts(elems, n - 1);
        match slot_contract("result_"@ + text::decimal((n - 1) as nat), elems[n - 1]) {
            Some(c) => done.push(c),
            None => done,
        }
    }
}

/// What holds of a value of the return type by that type alone.
pub open spec fn type_contracts(t: Type) -> Seq<Seq<char>> {
    match tuple_of(t) {
        Some(elems) => tuple_contracts(elems, elems.len() as int),
        None => match slot_contract("result"@, t) {
            Some(c) => seq![c],
            None => seq![],
        },
    }
}

fn contract_of_slot(slot: &str, t: &Type) -> (r: Option<String>)
    ensures
        match r {
            Some(c) => slot_contract(slot@, *t) == Some(c@),
            None => slot_contract(slot@, *t) is None,
        },
{
    if returns_bool_like(t) {
        let c = cat3(slot, " == true || ", slot);
        Some(cat(c.as_str(), " == false"))
    } else if is_unsigned_type(t) {
        Some(cat(slot, " >= 0"))
    } else {
        None
    }
}

/// What holds of a value of the return type by that type alone: the contracts of a function for
/// which none is written.
pub fn auto_type_contracts(t: &Type) -> (r: Vec<String>)
    ensures
        text::views(r@) == type_contracts(*t),
{
    let mut out: Vec<String> = Vec::new();
    match unwrap_to_tuple(t) {
        Some(elems) => {
            let mut i: usize = 0;
            proof {
                assert(text::views(out@) =~= seq![]);
            }
            while i < elems.len()
                invariant
                    i <= elems.len(),
                    text::views(out@) == tuple_contracts(elems@, i as int),
                decreases elems.len() - i,
            {
                let ghost had = out@;
                let slot = numbered("result_", i);
                if let Some(c) = contract_of_slot(slot.as_str(), &elems[i]) {
                    let ghost cv = c@;
                    out.push(c);
                    proof {
                        assert(text::views(out@) =~= text::views(had).push(cv));
                    }
                }
                i += 1;
            }
        },
        None => {
            if let Some(c) = contract_of_slot("result", t) {
                out.push(c);
            }
            proof {
                assert(text::views(out@) =~= type_contracts(*t));
            }
        },
    }
    out
}

/// A decimal literal is worth the number that it writes, where an `i64` holds it.
pub proof fn law_decimal_literals_are_their_numbers(l: IntLit, n: nat)
    requires
        l.digits@ == text::decimal(n),
        n <= i64::MAX,
    ensures
        lit_value(l) == Some(n as i64),
{
    numbers::law_decimal_integer_is_read_back(n as int);
}

/// The constants of the money supply fit together: the first subsidy is fifty coins, and all halvings
/// together never exceed twice what is paid before the first of them.
pub proof fn law_money_constants_fit()
    ensures
        ({
            let coin = constant_value("SATOSHIS_PER_BTC"@);
            let subsidy = constant_value("INITIAL_SUBSIDY"@);
            let interval = constant_value("HALVING_INTERVAL"@);
            let most = constant_value("MAX_MONEY"@);
            &&& coin is Some && subsidy is Some && interval is Some && most is Some
            &&& subsidy->0 == 50 * coin->0
            &&& most->0 == 2 * interval->0 * subsidy->0
            &&& most->0 == 21_000_000 * coin->0
        }),
{
    reveal_strlit("INITIAL_SUBSIDY");
    reveal_strlit("MAX_MONEY");
    reveal_strlit("HALVING_INTERVAL");
    reveal_strlit("SATOSHIS_PER_BTC");
    assert("INITIAL_SUBSIDY"@.len() == 15 && "MAX_MONEY"@.len() == 9);
    assert("HALVING_INTERVAL"@.len() == 16 && "SATOSHIS_PER_BTC"@.len() == 16);
    assert("HALVING_INTERVAL"@[0] == 'H' && "SATOSHIS_PER_BTC"@[0] == 'S');
}

} // verus!
