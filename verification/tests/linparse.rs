use zrsh::parser::{parse_expr, parse_type, Expr, PrimType, Qual, ValExpr};
use zrsh::text::to_chars;
use zrsh::typing::{typing, TypeEnv};

#[test]
fn parses_values_and_variables() {
    let c = to_chars("lin true");
    let (p, e) = parse_expr(&c, 0).unwrap();
    assert_eq!(p, c.len());
    match e {
        Expr::QVal(q) => {
            assert_eq!(q.qual, Qual::Lin);
            assert!(matches!(q.val, ValExpr::Bool(true)));
        },
        _ => panic!("expected a qualified value"),
    }

    let c = to_chars("someVar");
    let (_, e) = parse_expr(&c, 0).unwrap();
    match e {
        Expr::Var(name) => assert_eq!(name, "someVar"),
        _ => panic!("expected a variable"),
    }
}

#[test]
fn parses_pairs_functions_and_types() {
    let c = to_chars("lin <un true, un false>");
    let (_, e) = parse_expr(&c, 0).unwrap();
    match e {
        Expr::QVal(q) => assert!(matches!(q.val, ValExpr::Pair(_, _))),
        _ => panic!("expected a pair value"),
    }

    let c = to_chars("un (un bool -> un bool)");
    let (_, t) = parse_type(&c, 0).unwrap();
    assert_eq!(t.qual, Qual::Un);
    assert!(matches!(t.prim, PrimType::Arrow(_, _)));

    let c = to_chars("lin (un bool * un bool)");
    let (_, t) = parse_type(&c, 0).unwrap();
    assert_eq!(t.qual, Qual::Lin);
    assert!(matches!(t.prim, PrimType::Pair(_, _)));
}

#[test]
fn parses_and_types_whole_programs() {
    // a linear pair taken apart, both halves used
    let src = "split lin <lin true, lin false> as a, b { if a { b } else { free b; un true } }";
    let c = to_chars(src);
    let r = parse_expr(&c, 0);
    assert!(r.is_ok());

    // binding, application, and consumption of a linear function
    let src = "let f : lin (un bool -> un bool) = lin fn x : un bool { x }; (f un true)";
    let c = to_chars(src);
    let (_, e) = parse_expr(&c, 0).unwrap();
    let mut env = TypeEnv::new();
    let t = typing(&e, &mut env, 0).unwrap();
    assert_eq!(t.qual, Qual::Un);
    assert!(matches!(t.prim, PrimType::Bool));
}

#[test]
fn rejects_malformed_programs() {
    assert!(parse_expr(&to_chars(""), 0).is_err());
    assert!(parse_expr(&to_chars("("), 0).is_err());
    assert!(parse_expr(&to_chars("let x"), 0).is_err());
    assert!(parse_expr(&to_chars("lin 5"), 0).is_err());
    assert!(parse_type(&to_chars("bool"), 0).is_err());
}
