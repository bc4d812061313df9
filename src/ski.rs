//! Terms of the SKI combinator basis.
use vstd::prelude::*;

verus! {

/// A combinator term over S, K and I; it holds no variables.
#[derive(Debug, PartialEq, Eq)]
pub enum SKIExpr {
    Apply(Box<SKIExpr>, Box<SKIExpr>),
    S,
    K,
    I,
}

impl Clone for SKIExpr {
    fn clone(&self) -> (r: SKIExpr)
        ensures
            r == *self,
        decreases self,
    {
        match self {
            SKIExpr::Apply(e1, e2) => SKIExpr::Apply(
                Box::new((**e1).clone()),
                Box::new((**e2).clone()),
            ),
            SKIExpr::S => SKIExpr::S,
            SKIExpr::K => SKIExpr::K,
            SKIExpr::I => SKIExpr::I,
        }
    }
}

} // verus!
