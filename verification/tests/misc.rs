use zrsh::calc::{eval as calc_eval, parse_expr as calc_parse};
use zrsh::dbg::{break_word, get_break_addr};
use zrsh::list::List;
use zrsh::parser::{Expr, IfExpr, LetExpr, PrimType, QValExpr, Qual, TypeExpr, ValExpr};
use zrsh::sort::XOR64;
use zrsh::text::to_chars;
use zrsh::typing::{typing, TypeEnv, TypeError};

#[test]
fn calculator_evaluates_prefix_expressions() {
    let input = to_chars("+ 10 * 2 3");
    let (rest, e) = calc_parse(&input, 0).unwrap();
    assert_eq!(rest, input.len());
    assert_eq!(calc_eval(&e), 16);

    let input = to_chars("  7 ");
    let (_, e) = calc_parse(&input, 0).unwrap();
    assert_eq!(calc_eval(&e), 7);

    let input = to_chars("* + 1 2 + 3 4");
    let (_, e) = calc_parse(&input, 0).unwrap();
    assert_eq!(calc_eval(&e), 21);

    assert!(calc_parse(&to_chars("- 1 2"), 0).is_err());
    assert!(calc_parse(&to_chars(""), 0).is_err());
    assert!(calc_parse(&to_chars("+ 1"), 0).is_err());
}

#[test]
fn calculator_wraps_on_overflow() {
    let input = to_chars("+ 18446744073709551615 1");
    let (_, e) = calc_parse(&input, 0).unwrap();
    assert_eq!(calc_eval(&e), 0);
}

#[test]
fn list_cursor_walks_front_to_back() {
    let list = List::new().cons(0).cons(1).cons(2);
    let mut it = list.iter();
    assert_eq!(it.next(), Some(&2));
    assert_eq!(it.next(), Some(&1));
    assert_eq!(it.next(), Some(&0));
    assert_eq!(it.next(), None);
}

#[test]
fn xorshift_is_deterministic_and_nonzero() {
    let mut a = XOR64::new(1234);
    let mut b = XOR64::new(1234);
    for _ in 0..100 {
        let x = a.next();
        assert_eq!(x, b.next());
        assert_ne!(x, 0);
    }
    let mut c = XOR64::new(99);
    assert_ne!(a.next(), c.next());
}

#[test]
fn breakpoint_addresses() {
    let cmd = vec![to_chars("break"), to_chars("0x8000")];
    assert_eq!(get_break_addr(&cmd), Some(0x8000));

    let cmd = vec![to_chars("break")];
    assert_eq!(get_break_addr(&cmd), None);

    let cmd = vec![to_chars("break"), to_chars("8000")];
    assert_eq!(get_break_addr(&cmd), None);

    let cmd = vec![to_chars("break"), to_chars("0xzz")];
    assert_eq!(get_break_addr(&cmd), None);

    assert_eq!(break_word(0x1122334455667788), 0x11223344556677cc);
}

fn lin_bool(b: bool) -> Expr {
    Expr::QVal(QValExpr { qual: Qual::Lin, val: ValExpr::Bool(b) })
}

#[test]
fn typing_qualified_booleans() {
    let mut env = TypeEnv::new();
    let t = typing(&lin_bool(true), &mut env, 0).unwrap();
    assert_eq!(t.qual, Qual::Lin);
    assert!(matches!(t.prim, PrimType::Bool));
}

#[test]
fn typing_rejects_linear_in_unrestricted_pair() {
    // un <lin true, un false> is rejected
    let e = Expr::QVal(QValExpr {
        qual: Qual::Un,
        val: ValExpr::Pair(
            Box::new(lin_bool(true)),
            Box::new(Expr::QVal(QValExpr { qual: Qual::Un, val: ValExpr::Bool(false) })),
        ),
    });
    let mut env = TypeEnv::new();
    assert!(matches!(typing(&e, &mut env, 0), Err(TypeError::UnPairHoldsLin)));
}

#[test]
fn typing_requires_linear_consumption() {
    // let x : lin bool = lin true; un false   -- x never consumed
    let bad = Expr::Let(LetExpr {
        var: "x".to_string(),
        ty: TypeExpr { qual: Qual::Lin, prim: PrimType::Bool },
        expr1: Box::new(lin_bool(true)),
        expr2: Box::new(Expr::QVal(QValExpr { qual: Qual::Un, val: ValExpr::Bool(false) })),
    });
    let mut env = TypeEnv::new();
    assert!(matches!(typing(&bad, &mut env, 0), Err(TypeError::UnconsumedLin(_))));

    // let x : lin bool = lin true; x          -- consumed by use
    let good = Expr::Let(LetExpr {
        var: "x".to_string(),
        ty: TypeExpr { qual: Qual::Lin, prim: PrimType::Bool },
        expr1: Box::new(lin_bool(true)),
        expr2: Box::new(Expr::Var("x".to_string())),
    });
    let mut env = TypeEnv::new();
    let t = typing(&good, &mut env, 0).unwrap();
    assert_eq!(t.qual, Qual::Lin);
}

#[test]
fn typing_if_branches_must_agree() {
    let un_bool = |b: bool| Expr::QVal(QValExpr { qual: Qual::Un, val: ValExpr::Bool(b) });
    let ok = Expr::If(IfExpr {
        cond_expr: Box::new(un_bool(true)),
        then_expr: Box::new(un_bool(true)),
        else_expr: Box::new(un_bool(false)),
    });
    let mut env = TypeEnv::new();
    assert!(typing(&ok, &mut env, 0).is_ok());

    let bad = Expr::If(IfExpr {
        cond_expr: Box::new(un_bool(true)),
        then_expr: Box::new(un_bool(true)),
        else_expr: Box::new(Expr::QVal(QValExpr {
            qual: Qual::Un,
            val: ValExpr::Pair(Box::new(un_bool(true)), Box::new(un_bool(false))),
        })),
    });
    let mut env = TypeEnv::new();
    assert!(matches!(typing(&bad, &mut env, 0), Err(TypeError::BranchMismatch)));
}
