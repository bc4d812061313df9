use lambda::LambdaExpr::{Apply, Lambda, Variable};
use lambda::{parse, Expected, LambdaExpr, ParseError, TokenType};

fn x() -> String {
    "x".to_string()
}

fn y() -> String {
    "y".to_string()
}

#[test]
fn single_variable() {
    assert_eq!(Ok(Variable(x())), parse("x"));
}

#[test]
fn single_lambda() {
    assert_eq!(Ok(Lambda(x(), Box::new(Variable(x())))), parse("\\x x"));
}

#[test]
fn single_parenthesis() {
    assert_eq!(Ok(Variable(x())), parse("(x)"));
}

#[test]
fn single_application() {
    assert_eq!(
        Ok(Apply(Box::new(Variable(x())), Box::new(Variable(y())))),
        parse("x y")
    );
}

#[test]
fn church_add() {
    assert_eq!(
        Ok(Lambda(
            "m".to_string(),
            Box::new(Lambda(
                "n".to_string(),
                Box::new(Lambda(
                    "f".to_string(),
                    Box::new(Lambda(
                        "x".to_string(),
                        Box::new(Apply(
                            Box::new(Apply(
                                Box::new(Variable("m".to_string())),
                                Box::new(Variable("f".to_string()))
                            )),
                            Box::new(Apply(
                                Box::new(Apply(
                                    Box::new(Variable("n".to_string())),
                                    Box::new(Variable("f".to_string()))
                                )),
                                Box::new(Variable("x".to_string()))
                            ))
                        ))
                    ))
                ))
            ))
        )),
        parse("\\m \\n \\f \\x m f (n f x)")
    );
}

#[test]
fn display_single_variable() {
    assert_eq!("x", parse("x").unwrap().render());
}

#[test]
fn display_single_lambda() {
    assert_eq!("λx x", parse("\\x x").unwrap().render());
}

#[test]
fn display_single_parenthesis() {
    assert_eq!("x", parse("(x)").unwrap().render());
}

#[test]
fn display_single_application() {
    assert_eq!("x y", parse("x y").unwrap().render());
}

#[test]
fn display_parenthesis() {
    assert_eq!("w x (y z)", parse("(w x) (y z)").unwrap().render());
}

#[test]
fn display_church_add() {
    assert_eq!(
        "λm λn λf λx m f (n f x)",
        parse("\\m \\n \\f \\x m f (n f x)").unwrap().render()
    );
}

#[test]
fn lambda_markers_interchangeable() {
    assert_eq!(parse("\\x x"), parse("λx x"));
}

#[test]
fn abstraction_body_extends_right() {
    assert_eq!(
        Ok(Lambda(x(), Box::new(Apply(Box::new(Variable(x())), Box::new(Variable(y())))))),
        parse("λx x y")
    );
}

#[test]
fn unicode_whitespace_separates() {
    assert_eq!(
        Ok(Apply(Box::new(Variable(x())), Box::new(Variable(y())))),
        parse("\u{a0}x\u{3000}y\t\n")
    );
}

#[test]
fn identifier_stops_at_reserved() {
    assert_eq!(
        Ok(Apply(Box::new(Variable(x())), Box::new(Lambda(y(), Box::new(Variable(y())))))),
        parse("x\\y y")
    );
}

#[test]
fn missing_rparen() {
    assert_eq!(
        Err(ParseError { expected: Expected::RParen, found: TokenType::EOF }),
        parse("(x")
    );
}

#[test]
fn missing_parameter() {
    assert_eq!(
        Err(ParseError { expected: Expected::Ident, found: TokenType::LParen }),
        parse("\\(x)")
    );
}

#[test]
fn missing_expression() {
    assert_eq!(
        Err(ParseError { expected: Expected::Expression, found: TokenType::RParen }),
        parse(")")
    );
    assert_eq!(
        Err(ParseError { expected: Expected::Expression, found: TokenType::EOF }),
        parse("   ")
    );
}

#[test]
fn round_trip_render() {
    for text in ["x y (z w)", "λf λx f (f x)", "a (λx x)", "(λx x) y", "f (g h) λz z"] {
        let once = parse(text).unwrap().render();
        assert_eq!(once, parse(&once).unwrap().render());
    }
}

#[test]
fn clone_keeps_term() {
    let t = parse("λx x (y z)").unwrap();
    let c: LambdaExpr = t.clone();
    assert_eq!(t, c);
}

#[test]
fn leftover_rparen_rejected() {
    assert_eq!(
        Err(ParseError { expected: Expected::EndOfInput, found: TokenType::RParen }),
        parse("x)")
    );
    assert_eq!(
        Err(ParseError { expected: Expected::EndOfInput, found: TokenType::RParen }),
        parse("(λx x) y) z")
    );
}
