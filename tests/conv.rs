use lambda::{parse, CompileError, IotaExpr, SKIExpr};

#[test]
fn id_to_ski() {
    assert_eq!("I", SKIExpr::from_lambda(parse("\\x x").unwrap()).unwrap().render());
}

#[test]
fn const_to_ski() {
    assert_eq!("K", SKIExpr::from_lambda(parse("\\x \\y x").unwrap()).unwrap().render());
}

#[test]
fn flip_to_ski() {
    assert_eq!(
        "S (K (S I)) K",
        SKIExpr::from_lambda(parse("\\x \\y y x").unwrap()).unwrap().render()
    );
}

#[test]
fn ski_to_iota() {
    assert_eq!("ι ι", IotaExpr::from(SKIExpr::I).render());
    assert_eq!("ι (ι (ι ι))", IotaExpr::from(SKIExpr::K).render());
    assert_eq!("ι (ι (ι (ι ι)))", IotaExpr::from(SKIExpr::S).render());
}

#[test]
fn flip_structure() {
    let expected = SKIExpr::Apply(
        Box::new(SKIExpr::Apply(
            Box::new(SKIExpr::S),
            Box::new(SKIExpr::Apply(
                Box::new(SKIExpr::K),
                Box::new(SKIExpr::Apply(Box::new(SKIExpr::S), Box::new(SKIExpr::I))),
            )),
        )),
        Box::new(SKIExpr::K),
    );
    assert_eq!(Ok(expected), SKIExpr::from_lambda(parse("λx λy y x").unwrap()));
}

#[test]
fn free_variable_rejected() {
    assert_eq!(
        Err(CompileError::FreeVariable("x".to_string())),
        SKIExpr::from_lambda(parse("x").unwrap())
    );
}

#[test]
fn free_variable_under_binder_rejected() {
    assert_eq!(
        Err(CompileError::FreeVariable("z".to_string())),
        SKIExpr::from_lambda(parse("\\x x z").unwrap())
    );
}

#[test]
fn eta_shortcut() {
    assert_eq!("I", SKIExpr::from_lambda(parse("\\f \\x f x").unwrap()).unwrap().render());
}

#[test]
fn general_case_uses_s() {
    assert_eq!(
        "S I I",
        SKIExpr::from_lambda(parse("\\x x x").unwrap()).unwrap().render()
    );
}

#[test]
fn iota_to_ski_expansion() {
    assert_eq!("S (S I (K S)) (K K)", SKIExpr::from(IotaExpr::Iota).render());
}

#[test]
fn iota_prefix_code() {
    assert_eq!("i", IotaExpr::Iota.to_string());
    assert_eq!("*i*i*ii", IotaExpr::from(SKIExpr::K).to_string());
}

#[test]
fn ski_as_lambda() {
    assert_eq!("λx λy λz x z (y z)", SKIExpr::S.to_lambda().render());
    assert_eq!("λx λy x", SKIExpr::K.to_lambda().render());
    assert_eq!(
        "λx x λx λy x",
        SKIExpr::Apply(Box::new(SKIExpr::I), Box::new(SKIExpr::K)).to_lambda().render()
    );
}

#[test]
fn iota_as_lambda() {
    let t = IotaExpr::Apply(Box::new(IotaExpr::Iota), Box::new(IotaExpr::Iota));
    assert_eq!("ι ι", t.display_lambda().render());
}
