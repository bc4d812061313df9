//! Conversions between the SKI and Iota bases, and to lambda terms.
use vstd::prelude::*;

use crate::iota::IotaExpr;
use crate::lambda::{LambdaExpr, Term};
use crate::ski::SKIExpr;

verus! {

/// A variable with a one-character name.
pub open spec fn var(c: char) -> Term {
    Term::Var(seq![c])
}

/// An application of lambda terms.
pub open spec fn app(a: Term, b: Term) -> Term {
    Term::App(Box::new(a), Box::new(b))
}

/// An abstraction over a one-character name.
pub open spec fn abs(c: char, e: Term) -> Term {
    Term::Abs(seq![c], Box::new(e))
}

/// The lambda term that an SKI term stands for: `S` is `λx λy λz x z (y z)`,
/// `K` is `λx λy x` and `I` is `λx x`.
pub open spec fn ski_term(s: SKIExpr) -> Term
    decreases s,
{
    match s {
        SKIExpr::Apply(a, b) => app(ski_term(*a), ski_term(*b)),
        SKIExpr::S => abs('x', abs('y', abs('z', app(app(var('x'), var('z')), app(var('y'), var('z')))))),
        SKIExpr::K => abs('x', abs('y', var('x'))),
        SKIExpr::I => abs('x', var('x')),
    }
}

/// An application of Iota terms.
pub open spec fn iapp(a: IotaExpr, b: IotaExpr) -> IotaExpr {
    IotaExpr::Apply(Box::new(a), Box::new(b))
}

/// The Iota encoding of an SKI term: `I` is `ι ι`, `K` is `ι (ι (ι ι))` and
/// `S` is `ι (ι (ι (ι ι)))`.
pub open spec fn iota_of(s: SKIExpr) -> IotaExpr
    decreases s,
{
    let i = IotaExpr::Iota;
    match s {
        SKIExpr::Apply(a, b) => iapp(iota_of(*a), iota_of(*b)),
        SKIExpr::S => iapp(i, iapp(i, iapp(i, iapp(i, i)))),
        SKIExpr::K => iapp(i, iapp(i, iapp(i, i))),
        SKIExpr::I => iapp(i, i),
    }
}

/// An application of SKI terms.
pub open spec fn sapp(a: SKIExpr, b: SKIExpr) -> SKIExpr {
    SKIExpr::Apply(Box::new(a), Box::new(b))
}

/// The SKI expansion of an Iota term: `ι` is `S (S I (K S)) (K K)`.
pub open spec fn ski_of(i: IotaExpr) -> SKIExpr
    decreases i,
{
    match i {
        IotaExpr::Apply(a, b) => sapp(ski_of(*a), ski_of(*b)),
        IotaExpr::Iota => sapp(
            sapp(SKIExpr::S, sapp(sapp(SKIExpr::S, SKIExpr::I), sapp(SKIExpr::K, SKIExpr::S))),
            sapp(SKIExpr::K, SKIExpr::K),
        ),
    }
}

/// An Iota term shown as a lambda term, `ι` as a variable.
pub open spec fn iota_shown(i: IotaExpr) -> Term
    decreases i,
{
    match i {
        IotaExpr::Apply(a, b) => app(iota_shown(*a), iota_shown(*b)),
        IotaExpr::Iota => var('ι'),
    }
}

/// The prefix code of an Iota term: `*` before each application, `i` for ι.
pub open spec fn iota_code(i: IotaExpr) -> Seq<char>
    decreases i,
{
    match i {
        IotaExpr::Apply(a, b) => seq!['*'] + iota_code(*a) + iota_code(*b),
        IotaExpr::Iota => seq!['i'],
    }
}

/// An owned copy of a name.
fn name(s: &str) -> (r: String)
    ensures
        r@ == s@,
{
    String::from_str(s)
}

/// A variable named by a one-character literal.
pub(crate) fn mk_var(s: &str) -> (r: LambdaExpr)
    requires
        s@.len() == 1,
    ensures
        r@ == var(s@[0]),
{
    let r = LambdaExpr::Variable(name(s));
    assert(s@ =~= seq![s@[0]]);
    r
}

/// An application of two terms.
pub(crate) fn mk_app(a: LambdaExpr, b: LambdaExpr) -> (r: LambdaExpr)
    ensures
        r@ == app(a@, b@),
{
    LambdaExpr::Apply(Box::new(a), Box::new(b))
}

/// An abstraction over a one-character literal name.
fn mk_abs(s: &str, e: LambdaExpr) -> (r: LambdaExpr)
    requires
        s@.len() == 1,
    ensures
        r@ == abs(s@[0], e@),
{
    let r = LambdaExpr::Lambda(name(s), Box::new(e));
    assert(s@ =~= seq![s@[0]]);
    r
}

impl SKIExpr {
    /// The lambda term that this combinator term stands for.
    pub fn to_lambda(&self) -> (r: LambdaExpr)
        ensures
            r@ == ski_term(*self),
        decreases self,
    {
        proof {
            reveal_strlit("x");
            reveal_strlit("y");
            reveal_strlit("z");
        }
        match self {
            SKIExpr::Apply(e1, e2) => mk_app(e1.to_lambda(), e2.to_lambda()),
            SKIExpr::S => mk_abs("x", mk_abs("y", mk_abs("z", mk_app(
                mk_app(mk_var("x"), mk_var("z")),
                mk_app(mk_var("y"), mk_var("z")),
            )))),
            SKIExpr::K => mk_abs("x", mk_abs("y", mk_var("x"))),
            SKIExpr::I => mk_abs("x", mk_var("x")),
        }
    }

    /// The SKI expansion of an Iota term.
    pub fn from_iota(expr: IotaExpr) -> (r: SKIExpr)
        ensures
            r == ski_of(expr),
        decreases expr,
    {
        match expr {
            IotaExpr::Apply(e1, e2) => SKIExpr::Apply(
                Box::new(SKIExpr::from_iota(*e1)),
                Box::new(SKIExpr::from_iota(*e2)),
            ),
            IotaExpr::Iota => SKIExpr::Apply(
                Box::new(SKIExpr::Apply(
                    Box::new(SKIExpr::S),
                    Box::new(SKIExpr::Apply(
                        Box::new(SKIExpr::Apply(Box::new(SKIExpr::S), Box::new(SKIExpr::I))),
                        Box::new(SKIExpr::Apply(Box::new(SKIExpr::K), Box::new(SKIExpr::S))),
                    )),
                )),
                Box::new(SKIExpr::Apply(Box::new(SKIExpr::K), Box::new(SKIExpr::K))),
            ),
        }
    }
}

impl IotaExpr {
    /// The Iota encoding of an SKI term.
    pub fn from_ski(expr: SKIExpr) -> (r: IotaExpr)
        ensures
            r == iota_of(expr),
        decreases expr,
    {
        match expr {
            SKIExpr::Apply(e1, e2) => IotaExpr::Apply(
                Box::new(IotaExpr::from_ski(*e1)),
                Box::new(IotaExpr::from_ski(*e2)),
            ),
            SKIExpr::S => IotaExpr::Apply(
                Box::new(IotaExpr::Iota),
                Box::new(IotaExpr::Apply(
                    Box::new(IotaExpr::Iota),
                    Box::new(IotaExpr::Apply(
                        Box::new(IotaExpr::Iota),
                        Box::new(IotaExpr::Apply(Box::new(IotaExpr::Iota), Box::new(IotaExpr::Iota))),
                    )),
                )),
            ),
            SKIExpr::K => IotaExpr::Apply(
                Box::new(IotaExpr::Iota),
                Box::new(IotaExpr::Apply(
                    Box::new(IotaExpr::Iota),
                    Box::new(IotaExpr::Apply(Box::new(IotaExpr::Iota), Box::new(IotaExpr::Iota))),
                )),
            ),
            SKIExpr::I => IotaExpr::Apply(Box::new(IotaExpr::Iota), Box::new(IotaExpr::Iota)),
        }
    }

    /// This term as a lambda term, with ι as a variable.
    pub fn display_lambda(&self) -> (r: LambdaExpr)
        ensures
            r@ == iota_shown(*self),
        decreases self,
    {
        proof {
            reveal_strlit("ι");
        }
        match self {
            IotaExpr::Apply(e1, e2) => mk_app(e1.display_lambda(), e2.display_lambda()),
            IotaExpr::Iota => mk_var("ι"),
        }
    }

    /// The calculus notation of this term, such as `ι (ι ι)`.
    pub fn render(&self) -> (r: String)
        ensures
            r@ == crate::lambda::render(iota_shown(*self)),
    {
        self.display_lambda().render()
    }

    fn append_to_string(&self, s: &mut String)
        ensures
            final(s)@ == old(s)@ + iota_code(*self),
        decreases self,
    {
        proof {
            reveal_strlit("i");
            reveal_strlit("*");
        }
        let ghost start = s@;
        match self {
            IotaExpr::Iota => {
                s.append("i");
            },
            IotaExpr::Apply(e1, e2) => {
                s.append("*");
                e1.append_to_string(s);
                e2.append_to_string(s);
                assert(s@ =~= start + iota_code(*self));
            },
        }
    }

    /// The prefix code of this term: `*` before each application, `i` for ι.
    pub fn to_string(&self) -> (r: String)
        ensures
            r@ == iota_code(*self),
    {
        let mut ret = String::new();
        self.append_to_string(&mut ret);
        assert(ret@ =~= iota_code(*self));
        ret
    }
}

impl From<IotaExpr> for SKIExpr {
    fn from(expr: IotaExpr) -> (r: SKIExpr) {
        SKIExpr::from_iota(expr)
    }
}

impl vstd::std_specs::convert::FromSpecImpl<IotaExpr> for SKIExpr {
    open spec fn obeys_from_spec() -> bool {
        true
    }

    open spec fn from_spec(v: IotaExpr) -> SKIExpr {
        ski_of(v)
    }
}

impl From<SKIExpr> for IotaExpr {
    fn from(expr: SKIExpr) -> (r: IotaExpr) {
        IotaExpr::from_ski(expr)
    }
}

impl vstd::std_specs::convert::FromSpecImpl<SKIExpr> for IotaExpr {
    open spec fn obeys_from_spec() -> bool {
        true
    }

    open spec fn from_spec(v: SKIExpr) -> IotaExpr {
        iota_of(v)
    }
}

} // verus!
