use rucket::env::Env;
use rucket::eval::{apply, eval, evaluate};
use rucket::meta_ops::MetaOperations;
use rucket::value::{Expr, RucketErr, RucketLambda, RucketVal, Token};

fn sym(s: &str) -> Expr {
    Expr::Atom(Token::Identifier(s.to_string()))
}

fn num(n: i64) -> Expr {
    Expr::Atom(Token::NumberLiteral(n))
}

fn boolean(b: bool) -> Expr {
    Expr::Atom(Token::BooleanLiteral(b))
}

fn text(s: &str) -> Expr {
    Expr::Atom(Token::StringLiteral(s.to_string()))
}

fn list(items: Vec<Expr>) -> Expr {
    Expr::ListVal(items)
}

fn run(env: &mut Env, e: Expr) -> Result<RucketVal, RucketErr> {
    evaluate(&e, env)
}

fn shown(env: &mut Env, e: Expr) -> String {
    match run(env, e) {
        Ok(v) => v.to_string(),
        Err(_) => "error".to_string(),
    }
}

#[test]
fn literals_evaluate_to_themselves() {
    let mut env = Env::default_env();
    assert_eq!(shown(&mut env, num(5)), "5");
    assert_eq!(shown(&mut env, boolean(false)), "#false");
    assert_eq!(shown(&mut env, text("x")), "\"x\"");
    assert!(matches!(run(&mut env, Expr::Atom(Token::QuoteTick)), Err(RucketErr::UnexpectedToken('\''))));
}

#[test]
fn quote_returns_data_unevaluated() {
    let mut env = Env::default_env();
    let e = list(vec![sym("quote"), list(vec![sym("+"), num(1), num(2)])]);
    assert_eq!(shown(&mut env, e), "'(+ 1 2)");
    assert_eq!(shown(&mut env, list(vec![sym("quote"), num(3)])), "3");
    assert_eq!(shown(&mut env, list(vec![sym("quote"), sym("undefined-name")])), "'undefined-name");
    assert!(matches!(run(&mut env, list(vec![sym("quote")])), Err(RucketErr::ArityMismatch)));
}

#[test]
fn if_takes_branch_by_test() {
    let mut env = Env::default_env();
    assert_eq!(shown(&mut env, list(vec![sym("if"), boolean(true), num(1), num(2)])), "1");
    assert_eq!(shown(&mut env, list(vec![sym("if"), boolean(false), num(1), num(2)])), "2");
    assert_eq!(shown(&mut env, list(vec![sym("if"), num(0), num(1), num(2)])), "1");
    assert_eq!(
        shown(&mut env, list(vec![sym("if"), list(vec![sym("quote"), list(vec![])]), num(1), num(2)])),
        "1"
    );
    assert!(matches!(
        run(&mut env, list(vec![sym("if"), boolean(true), num(1)])),
        Err(RucketErr::ArityMismatch)
    ));
}

#[test]
fn define_twice_replaces() {
    let mut env = Env::default_env();
    assert!(matches!(run(&mut env, list(vec![sym("define"), sym("x"), num(1)])), Ok(RucketVal::Void)));
    assert!(matches!(run(&mut env, list(vec![sym("define"), sym("x"), num(2)])), Ok(RucketVal::Void)));
    assert_eq!(shown(&mut env, sym("x")), "2");
    assert!(matches!(env.lookup(0, &"x".to_string()), Ok(RucketVal::NumV(2))));
}

#[test]
fn set_unbound_is_error_and_binds_nothing() {
    let mut env = Env::default_env();
    let r = run(&mut env, list(vec![sym("set!"), sym("y"), num(1)]));
    assert!(matches!(r, Err(RucketErr::UnboundIdentifier(ref n)) if n == "y"));
    assert!(matches!(run(&mut env, sym("y")), Err(RucketErr::UnboundIdentifier(_))));
}

#[test]
fn set_changes_nearest_binding() {
    let mut env = Env::default_env();
    run(&mut env, list(vec![sym("define"), sym("x"), num(1)])).ok().unwrap();
    let f = env.child_frame(0, &[], vec![]);
    assert!(matches!(eval(&list(vec![sym("set!"), sym("x"), num(9)]), &mut env, f, 100), Ok(RucketVal::Void)));
    assert!(matches!(env.lookup(0, &"x".to_string()), Ok(RucketVal::NumV(9))));
    assert!(matches!(env.lookup(f, &"x".to_string()), Ok(RucketVal::NumV(9))));
}

#[test]
fn closures_capture_by_reference() {
    let mut env = Env::default_env();
    run(&mut env, list(vec![sym("define"), sym("x"), num(1)])).ok().unwrap();
    run(&mut env, list(vec![sym("define"), sym("g"), list(vec![sym("lambda"), list(vec![]), sym("x")])]))
        .ok()
        .unwrap();
    run(&mut env, list(vec![sym("set!"), sym("x"), num(2)])).ok().unwrap();
    assert_eq!(shown(&mut env, list(vec![sym("g")])), "2");
}

#[test]
fn closure_arity_mismatch() {
    let mut env = Env::default_env();
    run(&mut env, list(vec![sym("define"), sym("id"), list(vec![sym("lambda"), list(vec![sym("a")]), sym("a")])]))
        .ok()
        .unwrap();
    let frames = env.num_frames();
    assert!(matches!(run(&mut env, list(vec![sym("id")])), Err(RucketErr::ArityMismatch)));
    assert!(matches!(run(&mut env, list(vec![sym("id"), num(1), num(2)])), Err(RucketErr::ArityMismatch)));
    assert_eq!(env.num_frames(), frames);
    assert!(matches!(run(&mut env, sym("a")), Err(RucketErr::UnboundIdentifier(_))));
    assert_eq!(shown(&mut env, list(vec![sym("id"), num(4)])), "4");
}

#[test]
fn apply_closure_directly() {
    let mut env = Env::default_env();
    let l = RucketVal::LambdaV(RucketLambda::new(vec!["a".to_string()], sym("a"), 0));
    assert!(matches!(apply(&l, vec![RucketVal::NumV(3)], &mut env, 10), Ok(RucketVal::NumV(3))));
    assert!(matches!(apply(&l, vec![], &mut env, 10), Err(RucketErr::ArityMismatch)));
    assert!(matches!(apply(&RucketVal::NumV(1), vec![], &mut env, 10), Err(RucketErr::TypeMismatch)));
}

#[test]
fn end_to_end_increment() {
    let mut env = Env::default_env();
    let body = list(vec![sym("+"), sym("x"), num(1)]);
    run(&mut env, list(vec![sym("define"), sym("f"), list(vec![sym("lambda"), list(vec![sym("x")]), body])]))
        .ok()
        .unwrap();
    assert_eq!(shown(&mut env, list(vec![sym("f"), num(2)])), "3");
}

#[test]
fn cond_without_match_is_void() {
    let mut env = Env::default_env();
    let e = list(vec![
        sym("cond"),
        list(vec![boolean(false), num(1)]),
        list(vec![list(vec![sym("="), num(1), num(2)]), num(2)]),
    ]);
    assert!(matches!(run(&mut env, e), Ok(RucketVal::Void)));
}

#[test]
fn cond_picks_first_true_clause_or_else() {
    let mut env = Env::default_env();
    let e = list(vec![
        sym("cond"),
        list(vec![boolean(false), num(1)]),
        list(vec![list(vec![sym("<"), num(1), num(2)]), num(2)]),
        list(vec![sym("else"), num(3)]),
    ]);
    assert_eq!(shown(&mut env, e), "2");
    let e = list(vec![sym("cond"), list(vec![boolean(false), num(1)]), list(vec![sym("else"), num(3)])]);
    assert_eq!(shown(&mut env, e), "3");
}

#[test]
fn let_binds_simultaneously() {
    let mut env = Env::default_env();
    run(&mut env, list(vec![sym("define"), sym("x"), num(10)])).ok().unwrap();
    let e = list(vec![
        sym("let"),
        list(vec![list(vec![sym("x"), num(1)]), list(vec![sym("y"), sym("x")])]),
        list(vec![sym("+"), sym("x"), sym("y")]),
    ]);
    assert_eq!(shown(&mut env, e), "11");
    assert_eq!(shown(&mut env, sym("x")), "10");
    assert!(matches!(
        run(&mut env, list(vec![sym("let"), list(vec![num(1)]), num(2)])),
        Err(RucketErr::TypeMismatch)
    ));
}

#[test]
fn begin_and_or() {
    let mut env = Env::default_env();
    let e = list(vec![sym("begin"), list(vec![sym("define"), sym("z"), num(4)]), list(vec![sym("*"), sym("z"), num(5)])]);
    assert_eq!(shown(&mut env, e), "20");
    assert!(matches!(run(&mut env, list(vec![sym("begin")])), Ok(RucketVal::Void)));
    assert_eq!(shown(&mut env, list(vec![sym("and")])), "#true");
    assert_eq!(shown(&mut env, list(vec![sym("or")])), "#false");
    assert_eq!(shown(&mut env, list(vec![sym("and"), num(1), num(2)])), "2");
    assert_eq!(shown(&mut env, list(vec![sym("and"), boolean(false), sym("unbound")])), "#false");
    assert_eq!(shown(&mut env, list(vec![sym("or"), num(7), sym("unbound")])), "7");
    assert_eq!(shown(&mut env, list(vec![sym("or"), boolean(false), num(8)])), "8");
}

#[test]
fn arguments_left_to_right_and_errors_propagate() {
    let mut env = Env::default_env();
    run(&mut env, list(vec![sym("define"), sym("b"), list(vec![sym("box"), num(0)])])).ok().unwrap();
    let e = list(vec![
        sym("-"),
        list(vec![sym("set-box!"), sym("b"), num(5)]),
        list(vec![sym("unbox"), sym("b")]),
    ]);
    assert_eq!(shown(&mut env, e), "-5");
    assert!(matches!(run(&mut env, list(vec![sym("+"), num(1), sym("nope")])), Err(RucketErr::UnboundIdentifier(_))));
    assert!(matches!(run(&mut env, list(vec![num(1), num(2)])), Err(RucketErr::TypeMismatch)));
    assert!(matches!(run(&mut env, list(vec![])), Err(RucketErr::TypeMismatch)));
}

#[test]
fn arithmetic_primitives() {
    let mut env = Env::default_env();
    assert_eq!(shown(&mut env, list(vec![sym("*"), num(6), num(7)])), "42");
    assert_eq!(shown(&mut env, list(vec![sym("-"), num(6), num(7)])), "-1");
    assert!(matches!(
        run(&mut env, list(vec![sym("+"), num(i64::MAX), num(1)])),
        Err(RucketErr::Generic)
    ));
    assert!(matches!(run(&mut env, list(vec![sym("+"), num(1)])), Err(RucketErr::ArityMismatch)));
    assert!(matches!(run(&mut env, list(vec![sym("+"), num(1), text("a")])), Err(RucketErr::TypeMismatch)));
    assert_eq!(shown(&mut env, list(vec![sym("<"), text("a"), text("b")])), "#true");
    assert!(matches!(run(&mut env, list(vec![sym("<"), num(1), text("b")])), Err(RucketErr::TypeMismatch)));
    assert_eq!(shown(&mut env, list(vec![sym("="), num(3), num(3)])), "#true");
    let q = |x: Expr| list(vec![sym("quote"), x]);
    assert_eq!(
        shown(&mut env, list(vec![sym("equal?"), q(list(vec![num(1), num(2)])), q(list(vec![num(1), num(2)]))])),
        "#true"
    );
    assert_eq!(shown(&mut env, list(vec![sym("equal?"), q(sym("a")), q(sym("a"))])), "#true");
}

#[test]
fn box_primitives() {
    let mut env = Env::default_env();
    run(&mut env, list(vec![sym("define"), sym("b"), list(vec![sym("box"), num(1)])])).ok().unwrap();
    assert_eq!(shown(&mut env, list(vec![sym("unbox"), sym("b")])), "1");
    assert_eq!(shown(&mut env, list(vec![sym("set-box!"), sym("b"), num(2)])), "1");
    assert_eq!(shown(&mut env, list(vec![sym("unbox"), sym("b")])), "2");
    assert!(matches!(run(&mut env, list(vec![sym("unbox"), num(2)])), Err(RucketErr::TypeMismatch)));
    assert!(matches!(run(&mut env, list(vec![sym("box")])), Err(RucketErr::ArityMismatch)));
    for arg in [sym("b"), num(5)] {
        match run(&mut env, list(vec![sym("memory-address"), arg])) {
            Ok(RucketVal::StringV(s)) => {
                assert!(s.starts_with("0x"));
                assert!(s.len() >= 3);
                assert!(s[2..].chars().all(|c| c.is_ascii_hexdigit()));
            }
            _ => panic!("memory-address gave no string"),
        }
    }
    assert!(matches!(run(&mut env, list(vec![sym("memory-address")])), Err(RucketErr::ArityMismatch)));
}

#[test]
fn meta_operations() {
    let mut env = Env::default_env();
    assert!(matches!(MetaOperations::new_box(), RucketVal::FuncV(rucket::value::Primitive::NewBox)));
    assert!(matches!(MetaOperations::unbox(), RucketVal::FuncV(rucket::value::Primitive::Unbox)));
    assert!(matches!(MetaOperations::set_box(), RucketVal::FuncV(rucket::value::Primitive::SetBox)));
    assert!(matches!(MetaOperations::memory_address(), RucketVal::FuncV(rucket::value::Primitive::MemoryAddress)));
    let at = MetaOperations::assert_truthy();
    assert!(matches!(apply(&at, vec![RucketVal::BoolV(true)], &mut env, 5), Ok(RucketVal::Void)));
    assert!(matches!(apply(&at, vec![RucketVal::NumV(1)], &mut env, 5), Err(RucketErr::Generic)));
    let ao = MetaOperations::active_objects();
    assert!(matches!(apply(&ao, vec![], &mut env, 5), Ok(RucketVal::NumV(1))));
    assert!(matches!(apply(&ao, vec![RucketVal::Void], &mut env, 5), Err(RucketErr::ArityMismatch)));
    let ib = MetaOperations::inspect_bytecode();
    let l = RucketVal::LambdaV(RucketLambda::new(vec![], list(vec![sym("+"), num(1)]), 0));
    assert!(matches!(apply(&ib, vec![l], &mut env, 5), Ok(RucketVal::Void)));
    assert!(matches!(apply(&ib, vec![RucketVal::NumV(1)], &mut env, 5), Err(RucketErr::TypeMismatch)));
}

#[test]
fn depth_budget_stops_unbounded_recursion() {
    let mut env = Env::default_env();
    let body = list(vec![sym("loop")]);
    run(&mut env, list(vec![sym("define"), sym("loop"), list(vec![sym("lambda"), list(vec![]), body])]))
        .ok()
        .unwrap();
    assert!(matches!(run(&mut env, list(vec![sym("loop")])), Err(RucketErr::Generic)));
    assert!(matches!(eval(&num(1), &mut env, 0, 0), Err(RucketErr::Generic)));
}

#[test]
fn lambda_form_checks_shape() {
    let mut env = Env::default_env();
    assert!(matches!(
        run(&mut env, list(vec![sym("lambda"), list(vec![num(1)]), num(2)])),
        Err(RucketErr::TypeMismatch)
    ));
    assert!(matches!(run(&mut env, list(vec![sym("lambda"), list(vec![])])), Err(RucketErr::ArityMismatch)));
    assert_eq!(shown(&mut env, list(vec![sym("lambda"), list(vec![sym("a")]), sym("a")])), "Lambda Function");
}

fn countdown(env: &mut Env, n: i64) -> Result<RucketVal, RucketErr> {
    let body = list(vec![
        sym("if"),
        list(vec![sym("="), sym("n"), num(0)]),
        num(0),
        list(vec![sym("down"), list(vec![sym("-"), sym("n"), num(1)])]),
    ]);
    run(env, list(vec![sym("define"), sym("down"), list(vec![sym("lambda"), list(vec![sym("n")]), body])]))
        .ok()
        .unwrap();
    run(env, list(vec![sym("down"), num(n)]))
}

#[test]
fn recursion_depth_that_fits() {
    let mut env = Env::default_env();
    assert!(matches!(countdown(&mut env, 190), Ok(RucketVal::NumV(0))));
    let mut env = Env::default_env();
    assert!(matches!(countdown(&mut env, 205), Err(RucketErr::Generic)));
}
