use blvm_spec_lock::ast::{
    BinOp, Block, Callee, Expr, Lit, Member, Pat, Stmt, Type, TypeArg, UnOp,
};
use blvm_spec_lock::source::{is_rust_expression, read_expression, read_source};

fn read(s: &str) -> Expr {
    match read_expression(s) {
        Some(e) => std::rc::Rc::try_unwrap(e).expect("one owner"),
        None => panic!("not an expression: {s}"),
    }
}

fn is_name(e: &Expr, name: &str) -> bool {
    matches!(e, Expr::Path(p) if p.segments == vec![name] && p.bare)
}

#[test]
fn texts_that_are_no_expressions() {
    assert!(read_expression("x >=").is_none());
    assert!(read_expression("").is_none());
    assert!(read_expression("a b").is_none());
    assert!(!is_rust_expression("x >="));
    assert!(is_rust_expression("x >= 1"));
}

#[test]
fn operators_are_read() {
    let simple: [(&str, fn(&BinOp) -> bool); 15] = [
        ("+", |o| matches!(o, BinOp::Plus)),
        ("-", |o| matches!(o, BinOp::Minus)),
        ("*", |o| matches!(o, BinOp::Times)),
        ("/", |o| matches!(o, BinOp::Div)),
        ("%", |o| matches!(o, BinOp::Rem)),
        (">>", |o| matches!(o, BinOp::Shr)),
        ("<<", |o| matches!(o, BinOp::Shl)),
        ("==", |o| matches!(o, BinOp::Eq)),
        ("!=", |o| matches!(o, BinOp::Ne)),
        ("<", |o| matches!(o, BinOp::Lt)),
        ("<=", |o| matches!(o, BinOp::Le)),
        (">", |o| matches!(o, BinOp::Gt)),
        (">=", |o| matches!(o, BinOp::Ge)),
        ("&&", |o| matches!(o, BinOp::And)),
        ("||", |o| matches!(o, BinOp::Or)),
    ];
    for (text, fits) in simple {
        match read(&format!("a {text} b")) {
            Expr::Binary(op, a, b) => {
                assert!(fits(&op), "{text}: {op:?}");
                assert!(is_name(&a, "a") && is_name(&b, "b"));
            }
            other => panic!("{other:?}"),
        }
    }
    assert!(matches!(read("a & b"), Expr::Binary(BinOp::BitAnd(d), _, _) if d.contains("BitAnd")));
    assert!(matches!(read("a | b"), Expr::Binary(BinOp::Other(d), _, _) if d.contains("BitOr")));
    assert!(matches!(read("a += b"), Expr::Binary(BinOp::AddAssign(_), _, _)));
    assert!(matches!(read("a -= b"), Expr::Binary(BinOp::SubAssign(_), _, _)));
    assert!(matches!(read("!a"), Expr::Unary(UnOp::Not, _)));
    assert!(matches!(read("-a"), Expr::Unary(UnOp::Neg, _)));
    assert!(matches!(read("*a"), Expr::Unary(UnOp::Deref, _)));
}

#[test]
fn values_are_read() {
    match read("0x1F_u64") {
        Expr::Lit(Lit::Int(n)) => {
            assert_eq!(n.text, "0x1F_u64");
            assert_eq!(n.digits, "31");
            assert_eq!(n.complaint, "");
        }
        other => panic!("{other:?}"),
    }
    match read("99999999999999999999") {
        Expr::Lit(Lit::Int(n)) => assert!(!n.complaint.is_empty()),
        other => panic!("{other:?}"),
    }
    assert!(matches!(read("true"), Expr::Lit(Lit::Bool(true))));
    assert!(matches!(read("\"s\""), Expr::Lit(Lit::Other(_))));
    assert!(matches!(read("a::b"), Expr::Path(p) if p.segments == vec!["a", "b"] && !p.bare));
    assert!(matches!(read("(a)"), Expr::Paren(e) if is_name(&e, "a")));
    assert!(matches!(read("a as u8"), Expr::Cast(e) if is_name(&e, "a")));
    assert!(matches!(read("&a"), Expr::Reference(e) if is_name(&e, "a")));
    assert!(matches!(read("a?"), Expr::Try(e) if is_name(&e, "a")));
    assert!(matches!(read("(a, b)"), Expr::Tuple(v) if v.len() == 2 && is_name(&v[1], "b")));
    assert!(matches!(read("[a, b, c]"), Expr::Array(v) if v.len() == 3));
    assert!(matches!(read("[a; b]"), Expr::Repeat(e, n) if is_name(&e, "a") && is_name(&n, "b")));
    assert!(matches!(read("a..b"), Expr::Range(Some(_), Some(_), false)));
    assert!(matches!(read("..=b"), Expr::Range(None, Some(_), true)));
    assert!(matches!(read("a.b"), Expr::Field(e, Member::Named(m)) if is_name(&e, "a") && m == "b"));
    assert!(matches!(read("a.1"), Expr::Field(_, Member::Unnamed(1))));
    assert!(matches!(read("a[b]"), Expr::Index(e, i) if is_name(&e, "a") && is_name(&i, "b")));
}

#[test]
fn calls_are_read() {
    match read("x::f(a, 1)") {
        Expr::Call(Callee::Path(p), v) => {
            assert_eq!(p.segments, vec!["x", "f"]);
            assert_eq!(v.len(), 2);
        }
        other => panic!("{other:?}"),
    }
    assert!(matches!(read("(f)(a)"), Expr::Call(Callee::Other(_), v) if v.len() == 1));
    match read("a.min(b)") {
        Expr::MethodCall(e, m, v) => {
            assert!(is_name(&e, "a") && m == "min" && is_name(&v[0], "b"));
        }
        other => panic!("{other:?}"),
    }
    match read("|x| x") {
        Expr::Closure(v, e) => {
            assert!(matches!(&v[0], Pat::Ident(n) if n == "x"));
            assert!(is_name(&e, "x"));
        }
        other => panic!("{other:?}"),
    }
    match read("S { a: 1, b }") {
        Expr::Struct(v) => {
            assert!(matches!(&v[0].member, Member::Named(n) if n == "a"));
            assert!(is_name(&v[1].expr, "b"));
        }
        other => panic!("{other:?}"),
    }
}

#[test]
fn choices_and_loops_are_read() {
    match read("if c { a } else { b }") {
        Expr::If(c, Block { stmts }, Some(other)) => {
            assert!(is_name(&c, "c"));
            assert!(matches!(&stmts[0], Stmt::Tail(e, true) if is_name(e, "a")));
            assert!(matches!(&*other, Expr::Block(_)));
        }
        other => panic!("{other:?}"),
    }
    match read("match k { 0 => a, Some(x) if x => b, _ => c }") {
        Expr::Match(k, arms) => {
            assert!(is_name(&k, "k"));
            assert_eq!(arms.len(), 3);
            assert!(matches!(&arms[0].pat, Pat::Lit(Lit::Int(n)) if n.digits == "0"));
            assert!(arms[1].guard && !arms[0].guard);
            assert!(
                matches!(&arms[1].pat, Pat::TupleStruct(p, v) if p.segments == vec!["Some"] && v.len() == 1)
            );
            assert!(matches!(&arms[2].pat, Pat::Wild));
            assert!(is_name(&arms[2].body, "c"));
        }
        other => panic!("{other:?}"),
    }
    assert!(matches!(read("for i in v { f(); }"), Expr::ForLoop(v, _) if is_name(&v, "v")));
    assert!(matches!(read("while c { f(); }"), Expr::While(c, _) if is_name(&c, "c")));
    assert!(matches!(read("loop { f(); }"), Expr::Loop(_)));
    assert!(matches!(read("a = b"), Expr::Assign(a, _, d) if is_name(&a, "a") && d.contains("Assign")));
    assert!(matches!(read("return a"), Expr::Return(Some(a), _) if is_name(&a, "a")));
    assert!(matches!(read("return"), Expr::Return(None, _)));
    assert!(matches!(read("async { 1 }"), Expr::Other(d) if d.contains("Async")));
    match read("if let Some(x) = o { x } else { y }") {
        Expr::If(c, _, _) => {
            assert!(matches!(&*c, Expr::Let(Pat::TupleStruct(_, _), d, _) if d.contains("Some")));
        }
        other => panic!("{other:?}"),
    }
}

#[test]
fn functions_of_a_file_are_read() {
    let code = "fn f(a: u64, (b, c): (u8, u8), d: &[u8]) -> Result<Vec<u8>, E> { let x = 1; g(); a; h!(); fn k() {} x }\nmod m { fn inside() {} }\nimpl S { fn m(&self, n: *const u8) {} }";
    let fns = read_source(code).unwrap();
    assert_eq!(fns.len(), 2);
    let f = &fns[0].item;
    assert_eq!(fns[0].name, "f");
    assert_eq!(f.params.len(), 2);
    assert_eq!(f.params[0].0, "a");
    assert!(matches!(&f.params[0].1, Type::Path(n, None) if n == "u64"));
    assert!(matches!(&f.params[1].1, Type::Reference(t) if matches!(**t, Type::Slice)));
    match &f.output {
        Some(Type::Path(n, Some(args))) => {
            assert_eq!(n, "Result");
            assert!(matches!(&args[0], TypeArg::Type(Type::Path(v, Some(_))) if v == "Vec"));
        }
        other => panic!("{other:?}"),
    }
    let stmts = &f.body.stmts;
    assert!(matches!(&stmts[0], Stmt::Local(Pat::Ident(x), Some(_)) if x == "x"));
    assert!(matches!(&stmts[1], Stmt::Semi(Expr::Call(_, _))));
    assert!(matches!(&stmts[2], Stmt::Semi(e) if is_name(e, "a")));
    assert!(matches!(&stmts[3], Stmt::Macro));
    assert!(matches!(&stmts[4], Stmt::Item));
    assert!(matches!(&stmts[5], Stmt::Tail(e, true) if is_name(e, "x")));
    assert_eq!(fns[1].name, "m");
    assert!(matches!(&fns[1].item.params[0].1, Type::Ptr(_)));
    assert!(fns[1].item.output.is_none());
    assert!(read_source("fn (").is_err());
}
