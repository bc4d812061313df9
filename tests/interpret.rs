use lambda::{parse, LambdaExpr};

#[test]
fn replace_alpha() {
    assert_eq!(
        parse("\\y' y").unwrap(),
        parse("\\y x").unwrap().replace(&"x".to_string(), &LambdaExpr::Variable("y".to_string()))
    );
}

#[test]
fn beta_id() {
    assert_eq!((parse("x").unwrap(), true), parse("(\\x x) x").unwrap().beta());
}

#[test]
fn beta_eta() {
    assert_eq!((parse("y").unwrap(), true), parse("(\\x y) x").unwrap().beta());
}

#[test]
fn beta_const() {
    assert_eq!(
        (parse("y").unwrap(), 2),
        parse("(\\x \\y x) y x").unwrap().repeated_beta(3)
    );
}

#[test]
fn beta_succ() {
    assert_eq!(
        (parse("\\f \\x f (f x)").unwrap(), 3),
        parse("(\\n \\f \\x f (n f x)) (\\f \\x f x)").unwrap().repeated_beta(10)
    );
}

#[test]
fn replace_fresh_name_skips_used() {
    assert_eq!(
        parse("λy'' λy' y").unwrap(),
        parse("λy λy' x").unwrap().replace(&"x".to_string(), &LambdaExpr::Variable("y".to_string()))
    );
}

#[test]
fn replace_shadowed_untouched() {
    assert_eq!(
        parse("λx x").unwrap(),
        parse("λx x").unwrap().replace(&"x".to_string(), &LambdaExpr::Variable("y".to_string()))
    );
}

#[test]
fn replace_keeps_free_variables_free() {
    let r = parse("λy x y").unwrap().replace(&"x".to_string(), &parse("y").unwrap());
    assert_eq!("λy' y y'", r.render());
}

#[test]
fn normal_form_is_fixed() {
    let t = parse("λx x (y z)").unwrap();
    assert_eq!((parse("λx x (y z)").unwrap(), false), t.beta());
}

#[test]
fn beta_leftmost_first() {
    assert_eq!(
        (parse("a ((λy y) b)").unwrap(), true),
        parse("(λx x) a ((λy y) b)").unwrap().beta()
    );
}

#[test]
fn beta_argument_when_function_normal() {
    assert_eq!((parse("f b").unwrap(), true), parse("f ((λy y) b)").unwrap().beta());
}

#[test]
fn repeated_beta_zero_limit() {
    assert_eq!(
        (parse("(λx x) y").unwrap(), 0),
        parse("(λx x) y").unwrap().repeated_beta(0)
    );
}

#[test]
fn repeated_beta_hits_limit() {
    let omega = "(λx x x) (λx x x)";
    assert_eq!((parse(omega).unwrap(), 5), parse(omega).unwrap().repeated_beta(5));
}
