//! Terms of the single-combinator Iota basis.
use vstd::prelude::*;

verus! {

/// A combinator term built from the single combinator iota.
#[derive(Debug, PartialEq, Eq)]
pub enum IotaExpr {
    Apply(Box<IotaExpr>, Box<IotaExpr>),
    Iota,
}

impl Clone for IotaExpr {
    fn clone(&self) -> (r: IotaExpr)
        ensures
            r == *self,
        decreases self,
    {
        match self {
            IotaExpr::Apply(e1, e2) => IotaExpr::Apply(
                Box::new((**e1).clone()),
                Box::new((**e2).clone()),
            ),
            IotaExpr::Iota => IotaExpr::Iota,
        }
    }
}

} // verus!
