//! Untyped lambda calculus: parsing, normal-order beta reduction, and
//! compilation to the SKI and Iota combinator bases.
use vstd::prelude::*;

pub mod codec;
pub mod conv;
pub mod interpret;
pub mod iota;
pub mod lambda;
pub mod parser;
pub mod ski;

pub use crate::conv::CompileError;
pub use crate::iota::IotaExpr;
pub use crate::lambda::LambdaExpr;
pub use crate::parser::{parse, Expected, ParseError, TokenType};
pub use crate::ski::SKIExpr;

verus! {

} // verus!
