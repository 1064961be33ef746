use rucket::value::RucketVal::{BoolV, LambdaV, ListV, NumV};
use rucket::value::{Expr, Primitive, RucketLambda, RucketVal, Token};

#[test]
fn display_test() {
    assert_eq!(RucketVal::BoolV(false).to_string(), "#false");
    assert_eq!(RucketVal::NumV(1).to_string(), "1");
    assert_eq!(RucketVal::FuncV(Primitive::Add).to_string(), "Function");
    assert_eq!(
        RucketVal::LambdaV(RucketLambda::new(
            vec!["arg1".to_owned()],
            Expr::Atom(Token::NumberLiteral(1)),
            0,
        ))
        .to_string(),
        "Lambda Function"
    );
    assert_eq!(RucketVal::SymbolV("foo".to_string()).to_string(), "'foo");
}

#[test]
fn display_list_test() {
    assert_eq!(ListV(vec![]).to_string(), "'()");
    assert_eq!(
        ListV(vec![
            BoolV(false),
            NumV(1),
            LambdaV(RucketLambda::new(
                vec!["arg1".to_owned()],
                Expr::Atom(Token::NumberLiteral(1)),
                0,
            ))
        ])
        .to_string(),
        "'(#false 1 Lambda Function)"
    );
    assert_eq!(
        ListV(vec![
            ListV(vec![NumV(1), ListV(vec!(NumV(2), NumV(3)))]),
            ListV(vec![NumV(4), NumV(5)]),
            NumV(6),
            ListV(vec![NumV(7)])
        ])
        .to_string(),
        "'((1 (2 3)) (4 5) 6 (7))"
    );
}

#[test]
fn display_other_kinds() {
    assert_eq!(RucketVal::NumV(-42).to_string(), "-42");
    assert_eq!(RucketVal::NumV(i64::MIN).to_string(), "-9223372036854775808");
    assert_eq!(RucketVal::NumV(1234567890).to_string(), "1234567890");
    assert_eq!(RucketVal::StringV("hi there".to_string()).to_string(), "\"hi there\"");
    assert_eq!(RucketVal::BoolV(true).to_string(), "#true");
    assert_eq!(RucketVal::Void.to_string(), "Void");
    assert_eq!(RucketVal::BoxV(3).to_string(), "Box");
    assert_eq!(
        RucketVal::Custom(rucket::value::ExtObject { kind_name: "Point".to_string(), payload: 1 })
            .to_string(),
        "Custom Type: Point"
    );
    assert_eq!(
        RucketVal::ListV(vec![RucketVal::SymbolV("a".to_string()), RucketVal::StringV("b".to_string())])
            .to_string(),
        "'(a \"b\")"
    );
}

#[test]
fn print_nested_list_has_no_inner_prefix() {
    let inner = ListV(vec![NumV(1), NumV(2), NumV(3)]);
    assert_eq!(inner.to_string(), "'(1 2 3)");
    let outer = ListV(vec![ListV(vec![NumV(1), NumV(2)]), NumV(3)]);
    assert_eq!(outer.to_string(), "'((1 2) 3)");
}

#[test]
fn lambda_accessors() {
    let l = RucketLambda::new(
        vec!["x".to_owned(), "y".to_owned()],
        Expr::Atom(Token::Identifier("x".to_string())),
        7,
    );
    assert_eq!(l.params_exp().len(), 2);
    assert_eq!(l.params_exp()[1], "y");
    assert_eq!(l.parent_env(), 7);
    assert!(matches!(l.body_exp(), Expr::Atom(Token::Identifier(ref s)) if s == "x"));
}
