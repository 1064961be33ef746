use rucket::value::{compare, equals, Expr, ExtObject, RucketErr, RucketVal, Token};
use std::cmp::Ordering;

fn num(n: i64) -> RucketVal {
    RucketVal::NumV(n)
}

fn text(s: &str) -> RucketVal {
    RucketVal::StringV(s.to_string())
}

#[test]
fn equals_is_structural() {
    assert!(equals(&num(1), &num(1)));
    assert!(!equals(&text("a"), &text("b")));
    assert!(equals(&text("a"), &text("a")));
    let l1 = RucketVal::ListV(vec![num(1), num(2)]);
    let l2 = RucketVal::ListV(vec![num(1), num(2)]);
    let l3 = RucketVal::ListV(vec![num(1), num(3)]);
    let l4 = RucketVal::ListV(vec![num(1)]);
    assert!(equals(&l1, &l2));
    assert!(!equals(&l1, &l3));
    assert!(!equals(&l1, &l4));
    assert!(!equals(&num(1), &text("1")));
    assert!(equals(&RucketVal::Void, &RucketVal::Void));
    assert!(equals(&RucketVal::SymbolV("a".to_string()), &RucketVal::SymbolV("a".to_string())));
    assert!(!equals(&RucketVal::SymbolV("a".to_string()), &RucketVal::SymbolV("b".to_string())));
    assert!(!equals(&RucketVal::SymbolV("a".to_string()), &text("a")));
}

#[test]
fn equals_on_extension_objects() {
    let a = RucketVal::Custom(ExtObject { kind_name: "usize".to_string(), payload: 5 });
    let b = RucketVal::Custom(ExtObject { kind_name: "usize".to_string(), payload: 5 });
    let c = RucketVal::Custom(ExtObject { kind_name: "u8".to_string(), payload: 5 });
    let d = RucketVal::Custom(ExtObject { kind_name: "usize".to_string(), payload: 6 });
    assert!(equals(&a, &b));
    assert!(!equals(&a, &c));
    assert!(!equals(&a, &d));
    assert!(!equals(&a, &num(5)));
}

#[test]
fn compare_numbers_and_strings_only() {
    assert!(matches!(compare(&num(1), &num(2)), Ok(Ordering::Less)));
    assert!(matches!(compare(&num(2), &num(2)), Ok(Ordering::Equal)));
    assert!(matches!(compare(&num(3), &num(2)), Ok(Ordering::Greater)));
    assert!(matches!(compare(&text("abc"), &text("abd")), Ok(Ordering::Less)));
    assert!(matches!(compare(&text("ab"), &text("abc")), Ok(Ordering::Less)));
    assert!(matches!(compare(&text("b"), &text("abc")), Ok(Ordering::Greater)));
    assert!(matches!(compare(&text(""), &text("")), Ok(Ordering::Equal)));
    assert!(matches!(compare(&num(1), &text("1")), Err(RucketErr::TypeMismatch)));
    assert!(matches!(
        compare(&RucketVal::BoolV(true), &RucketVal::BoolV(false)),
        Err(RucketErr::TypeMismatch)
    ));
}

#[test]
fn try_from_converts_tree() {
    let e = Expr::ListVal(vec![
        Expr::Atom(Token::NumberLiteral(1)),
        Expr::Atom(Token::Identifier("x".to_string())),
        Expr::ListVal(vec![Expr::Atom(Token::StringLiteral("s".to_string()))]),
        Expr::Atom(Token::BooleanLiteral(true)),
    ]);
    let v = RucketVal::try_from(&e).ok().unwrap();
    assert_eq!(v.to_string(), "'(1 x (\"s\") #true)");
}

#[test]
fn try_from_rejects_syntax_tokens() {
    let e = Expr::ListVal(vec![Expr::Atom(Token::NumberLiteral(1)), Expr::Atom(Token::OpenParen)]);
    assert!(matches!(RucketVal::try_from(&e), Err(RucketErr::UnexpectedToken('('))));
    assert!(matches!(
        RucketVal::try_from(&Expr::Atom(Token::CloseParen)),
        Err(RucketErr::UnexpectedToken(')'))
    ));
    assert!(matches!(
        RucketVal::try_from(&Expr::Atom(Token::QuoteTick)),
        Err(RucketErr::UnexpectedToken('\''))
    ));
}

#[test]
fn extension_bridge_recovery() {
    let obj = ExtObject { kind_name: "Counter".to_string(), payload: 9 };
    let copy = obj.copy();
    assert_eq!(copy.kind(), "Counter");
    let v = obj.wrap();
    assert_eq!(v.to_string(), "Custom Type: Counter");
    assert!(matches!(rucket::value::recover(&v, &"Counter".to_string()), Ok(9)));
    assert!(matches!(
        rucket::value::recover(&v, &"Other".to_string()),
        Err(RucketErr::ConversionError)
    ));
    assert!(matches!(
        rucket::value::recover(&num(9), &"Counter".to_string()),
        Err(RucketErr::ConversionError)
    ));
    assert!(equals(&v, &copy.wrap()));
}
