//! Bracket abstraction from lambda terms to SKI combinators.
use vstd::prelude::*;

use crate::codec::{app, mk_app, mk_var, var};
use crate::lambda::{free_in, model, render, LambdaExpr, Term};
use crate::ski::SKIExpr;

verus! {

/// The model of a partially translated term: lambda terms and combinators mixed.
pub enum UTerm {
    Var(Seq<char>),
    App(Box<UTerm>, Box<UTerm>),
    Abs(Seq<char>, Box<UTerm>),
    S,
    K,
    I,
}

/// A partially translated term.
enum IntExpr {
    Variable(String),
    Apply(Box<IntExpr>, Box<IntExpr>),
    Lambda(String, Box<IntExpr>),
    S,
    K,
    I,
}

spec fn imodel(e: &IntExpr) -> UTerm
    decreases e,
{
    match e {
        IntExpr::Variable(v) => UTerm::Var(v@),
        IntExpr::Apply(a, b) => UTerm::App(Box::new(imodel(a)), Box::new(imodel(b))),
        IntExpr::Lambda(v, b) => UTerm::Abs(v@, Box::new(imodel(b))),
        IntExpr::S => UTerm::S,
        IntExpr::K => UTerm::K,
        IntExpr::I => UTerm::I,
    }
}

impl View for IntExpr {
    type V = UTerm;

    closed spec fn view(&self) -> UTerm {
        imodel(self)
    }
}

/// Embeds a lambda term unchanged.
pub open spec fn lift(t: Term) -> UTerm
    decreases t,
{
    match t {
        Term::Var(v) => UTerm::Var(v),
        Term::App(a, b) => UTerm::App(Box::new(lift(*a)), Box::new(lift(*b))),
        Term::Abs(v, e) => UTerm::Abs(v, Box::new(lift(*e))),
    }
}

/// Embeds a combinator term unchanged.
pub open spec fn lift_ski(s: SKIExpr) -> UTerm
    decreases s,
{
    match s {
        SKIExpr::Apply(a, b) => UTerm::App(Box::new(lift_ski(*a)), Box::new(lift_ski(*b))),
        SKIExpr::S => UTerm::S,
        SKIExpr::K => UTerm::K,
        SKIExpr::I => UTerm::I,
    }
}

/// Whether `x` occurs free in `u`; combinators have no free variables.
pub open spec fn ufree(u: UTerm, x: Seq<char>) -> bool
    decreases u,
{
    match u {
        UTerm::Var(v) => v == x,
        UTerm::App(a, b) => ufree(*a, x) || ufree(*b, x),
        UTerm::Abs(v, e) => v != x && ufree(*e, x),
        _ => false,
    }
}

/// Whether `u` holds no abstraction.
pub open spec fn abs_free(u: UTerm) -> bool
    decreases u,
{
    match u {
        UTerm::App(a, b) => abs_free(*a) && abs_free(*b),
        UTerm::Abs(_, _) => false,
        _ => true,
    }
}

/// The number of nodes of `u`.
pub open spec fn usize_of(u: UTerm) -> nat
    decreases u,
{
    match u {
        UTerm::App(a, b) => 1 + usize_of(*a) + usize_of(*b),
        UTerm::Abs(_, e) => 1 + usize_of(*e),
        _ => 1,
    }
}

/// Bracket abstraction of `v` from an abstraction-free term `c`.
pub open spec fn eliminate(v: Seq<char>, c: UTerm) -> UTerm
    decreases c,
{
    if !ufree(c, v) {
        UTerm::App(Box::new(UTerm::K), Box::new(c))
    } else {
        match c {
            UTerm::Var(_) => UTerm::I,
            UTerm::App(c1, c2) => if *c2 == UTerm::Var(v) && !ufree(*c1, v) {
                *c1
            } else {
                UTerm::App(
                    Box::new(UTerm::App(Box::new(UTerm::S), Box::new(eliminate(v, *c1)))),
                    Box::new(eliminate(v, *c2)),
                )
            },
            _ => c,
        }
    }
}

/// Removes every abstraction of `u`, innermost first.
pub open spec fn translate(u: UTerm) -> UTerm
    decreases usize_of(u),
{
    match u {
        UTerm::App(a, b) => UTerm::App(Box::new(translate(*a)), Box::new(translate(*b))),
        UTerm::Abs(v, e) => if !ufree(*e, v) {
            UTerm::App(Box::new(UTerm::K), Box::new(translate(*e)))
        } else {
            match *e {
                UTerm::Var(_) => UTerm::I,
                UTerm::App(e1, e2) => if *e2 == UTerm::Var(v) && !ufree(*e1, v) {
                    translate(*e1)
                } else {
                    UTerm::App(
                        Box::new(UTerm::App(Box::new(UTerm::S), Box::new(translate(UTerm::Abs(v, e1))))),
                        Box::new(translate(UTerm::Abs(v, e2))),
                    )
                },
                UTerm::Abs(_, _) => eliminate(v, translate(*e)),
                _ => u,
            }
        },
        _ => u,
    }
}

/// What projecting a translated term onto the SKI basis yields.
pub enum Projection {
    Combinator(SKIExpr),
    Free(Seq<char>),
    Stuck,
}

/// Projects onto the SKI basis, left to right; the first variable or
/// abstraction met stops it.
pub open spec fn project(u: UTerm) -> Projection
    decreases u,
{
    match u {
        UTerm::App(a, b) => match project(*a) {
            Projection::Combinator(x) => match project(*b) {
                Projection::Combinator(y) => Projection::Combinator(
                    SKIExpr::Apply(Box::new(x), Box::new(y)),
                ),
                other => other,
            },
            other => other,
        },
        UTerm::Var(v) => Projection::Free(v),
        UTerm::Abs(_, _) => Projection::Stuck,
        UTerm::S => Projection::Combinator(SKIExpr::S),
        UTerm::K => Projection::Combinator(SKIExpr::K),
        UTerm::I => Projection::Combinator(SKIExpr::I),
    }
}

/// The outcome of compiling a lambda term to combinators.
pub open spec fn compile(t: Term) -> Projection {
    project(translate(lift(t)))
}

/// Whether `t` has no free variable.
pub open spec fn closed(t: Term) -> bool {
    forall|x: Seq<char>| !free_in(t, x)
}

/// Why a lambda term could not be compiled to combinators.
#[derive(Debug, PartialEq, Eq)]
pub enum CompileError {
    /// The term has this free variable.
    FreeVariable(String),
    /// An abstraction survived translation; no input leads here.
    UntranslatedAbstraction,
}

/// Whether the result `r` reports the projection `p`.
pub open spec fn reports(r: Result<SKIExpr, CompileError>, p: Projection) -> bool {
    match p {
        Projection::Combinator(s) => r == Ok::<SKIExpr, CompileError>(s),
        Projection::Free(n) => r matches Err(CompileError::FreeVariable(m)) && m@ == n,
        Projection::Stuck => r matches Err(CompileError::UntranslatedAbstraction),
    }
}

proof fn lemma_lift_free(t: Term, x: Seq<char>)
    ensures
        ufree(lift(t), x) == free_in(t, x),
    decreases t,
{
    match t {
        Term::Var(_) => {},
        Term::App(a, b) => {
            lemma_lift_free(*a, x);
            lemma_lift_free(*b, x);
        },
        Term::Abs(_, e) => lemma_lift_free(*e, x),
    }
}

proof fn lemma_eliminate(v: Seq<char>, c: UTerm, x: Seq<char>)
    requires
        abs_free(c),
    ensures
        abs_free(eliminate(v, c)),
        ufree(eliminate(v, c), x) == (ufree(c, x) && x != v),
    decreases c,
{
    reveal_with_fuel(abs_free, 3);
    reveal_with_fuel(ufree, 3);
    if ufree(c, v) {
        if let UTerm::App(c1, c2) = c {
            lemma_eliminate(v, *c1, x);
            lemma_eliminate(v, *c2, x);
        }
    }
}

/// Translation leaves no abstraction and keeps the free variables.
proof fn lemma_translate(u: UTerm, x: Seq<char>)
    ensures
        abs_free(translate(u)),
        ufree(translate(u), x) == ufree(u, x),
    decreases usize_of(u),
{
    reveal_with_fuel(usize_of, 3);
    reveal_with_fuel(abs_free, 3);
    reveal_with_fuel(ufree, 3);
    match u {
        UTerm::App(a, b) => {
            lemma_translate(*a, x);
            lemma_translate(*b, x);
        },
        UTerm::Abs(v, e) => {
            if !ufree(*e, v) {
                lemma_translate(*e, x);
            } else {
                match *e {
                    UTerm::App(e1, e2) => {
                        lemma_translate(*e1, x);
                        lemma_translate(UTerm::Abs(v, e1), x);
                        lemma_translate(UTerm::Abs(v, e2), x);
                    },
                    UTerm::Abs(_, _) => {
                        lemma_translate(*e, x);
                        lemma_eliminate(v, translate(*e), x);
                    },
                    _ => {},
                }
            }
        },
        _ => {},
    }
}

/// Translation leaves an abstraction-free term as it is.
proof fn lemma_translate_abs_free(c: UTerm)
    requires
        abs_free(c),
    ensures
        translate(c) == c,
    decreases c,
{
    if let UTerm::App(a, b) = c {
        lemma_translate_abs_free(*a);
        lemma_translate_abs_free(*b);
    }
}

/// Over an abstraction-free body, translating the abstraction is bracket
/// abstraction of its variable: re-wrapping the translated inner term and
/// translating again, as the nested case does, yields `eliminate`.
pub proof fn lemma_translate_abs(v: Seq<char>, c: UTerm)
    requires
        abs_free(c),
    ensures
        translate(UTerm::Abs(v, Box::new(c))) == eliminate(v, c),
    decreases c,
{
    lemma_translate_abs_free(c);
    if ufree(c, v) {
        if let UTerm::App(c1, c2) = c {
            lemma_translate_abs_free(*c1);
            lemma_translate_abs(v, *c1);
            lemma_translate_abs(v, *c2);
        }
    }
}

/// The nested case of translation agrees with translating the inner
/// abstraction first, re-wrapping the result under `v`, and translating that.
pub proof fn lemma_translate_nested(v: Seq<char>, e: UTerm)
    requires
        e is Abs,
    ensures
        translate(UTerm::Abs(v, Box::new(e))) == translate(
            UTerm::Abs(v, Box::new(translate(e))),
        ),
{
    lemma_translate(e, v);
    lemma_translate_abs_free(translate(e));
    lemma_translate_abs(v, translate(e));
}

proof fn lemma_project(c: UTerm)
    requires
        abs_free(c),
    ensures
        !(project(c) is Stuck),
        project(c) is Combinator ==> forall|x: Seq<char>| !ufree(c, x),
        project(c) matches Projection::Free(n) ==> ufree(c, n),
    decreases c,
{
    if let UTerm::App(a, b) = c {
        lemma_project(*a);
        lemma_project(*b);
        if project(c) is Combinator {
            assert forall|x: Seq<char>| !ufree(c, x) by {
                assert(!ufree(*a, x));
                assert(!ufree(*b, x));
            }
        }
    }
}

/// Compiling succeeds exactly on closed terms; a reported variable is free
/// in the term, and no abstraction is ever left over.
pub proof fn lemma_compile(t: Term)
    ensures
        compile(t) is Combinator <==> closed(t),
        compile(t) matches Projection::Free(n) ==> free_in(t, n),
        !(compile(t) is Stuck),
{
    let c = translate(lift(t));
    assert forall|x: Seq<char>| ufree(c, x) == free_in(t, x) by {
        lemma_translate(lift(t), x);
        lemma_lift_free(t, x);
    }
    lemma_translate(lift(t), Seq::empty());
    lemma_project(c);
}

impl SKIExpr {
    /// Compiles a lambda term to an SKI term by bracket abstraction.
    pub fn from_lambda(expr: LambdaExpr) -> (r: Result<SKIExpr, CompileError>)
        ensures
            reports(r, compile(expr@)),
            r is Ok <==> closed(expr@),
            r matches Err(CompileError::FreeVariable(n)) ==> free_in(expr@, n@),
            !(r matches Err(CompileError::UntranslatedAbstraction)),
    {
        proof {
            lemma_compile(expr@);
        }
        SKIExpr::from_int(IntExpr::from_lambda(expr).translate())
    }

    fn from_int(expr: IntExpr) -> (r: Result<SKIExpr, CompileError>)
        ensures
            reports(r, project(expr@)),
        decreases expr,
    {
        proof {
            reveal_with_fuel(imodel, 2);
        }
        match expr {
            IntExpr::Apply(e1, e2) => match SKIExpr::from_int(*e1) {
                Ok(a) => match SKIExpr::from_int(*e2) {
                    Ok(b) => Ok(SKIExpr::Apply(Box::new(a), Box::new(b))),
                    Err(err) => Err(err),
                },
                Err(err) => Err(err),
            },
            IntExpr::S => Ok(SKIExpr::S),
            IntExpr::K => Ok(SKIExpr::K),
            IntExpr::I => Ok(SKIExpr::I),
            IntExpr::Variable(v) => Err(CompileError::FreeVariable(v)),
            IntExpr::Lambda(_, _) => Err(CompileError::UntranslatedAbstraction),
        }
    }
}

/// A partially translated term shown as a lambda term, each combinator as a
/// variable of its own name.
pub open spec fn shown(u: UTerm) -> Term
    decreases u,
{
    match u {
        UTerm::Var(v) => Term::Var(v),
        UTerm::App(a, b) => app(shown(*a), shown(*b)),
        UTerm::Abs(v, e) => Term::Abs(v, Box::new(shown(*e))),
        UTerm::S => var('S'),
        UTerm::K => var('K'),
        UTerm::I => var('I'),
    }
}

impl SKIExpr {
    /// The calculus notation of this term, such as `S (K (S I)) K`.
    pub fn render(&self) -> (r: String)
        ensures
            r@ == render(shown(lift_ski(*self))),
    {
        IntExpr::from_ski(self).display_lambda().render()
    }
}

impl IntExpr {
    fn from_ski(e: &SKIExpr) -> (r: IntExpr)
        ensures
            r@ == lift_ski(*e),
        decreases e,
    {
        proof {
            reveal_with_fuel(imodel, 2);
        }
        match e {
            SKIExpr::Apply(e1, e2) => IntExpr::Apply(
                Box::new(IntExpr::from_ski(e1)),
                Box::new(IntExpr::from_ski(e2)),
            ),
            SKIExpr::S => IntExpr::S,
            SKIExpr::K => IntExpr::K,
            SKIExpr::I => IntExpr::I,
        }
    }

    fn display_lambda(&self) -> (r: LambdaExpr)
        ensures
            r@ == shown(self@),
        decreases self,
    {
        proof {
            reveal_with_fuel(imodel, 2);
            reveal_with_fuel(model, 2);
            reveal_strlit("S");
            reveal_strlit("K");
            reveal_strlit("I");
        }
        match self {
            IntExpr::Variable(v) => LambdaExpr::Variable(v.clone()),
            IntExpr::Apply(e1, e2) => mk_app(e1.display_lambda(), e2.display_lambda()),
            IntExpr::Lambda(v, e) => LambdaExpr::Lambda(v.clone(), Box::new(e.display_lambda())),
            IntExpr::S => mk_var("S"),
            IntExpr::K => mk_var("K"),
            IntExpr::I => mk_var("I"),
        }
    }

    fn from_lambda(e: LambdaExpr) -> (r: IntExpr)
        ensures
            r@ == lift(e@),
        decreases e,
    {
        match e {
            LambdaExpr::Variable(s) => IntExpr::Variable(s),
            LambdaExpr::Apply(e1, e2) => IntExpr::Apply(
                Box::new(IntExpr::from_lambda(*e1)),
                Box::new(IntExpr::from_lambda(*e2)),
            ),
            LambdaExpr::Lambda(v, e) => IntExpr::Lambda(v, Box::new(IntExpr::from_lambda(*e))),
        }
    }

    fn contains(&self, var: &String) -> (r: bool)
        ensures
            r == ufree(self@, var@),
        decreases self,
    {
        match self {
            IntExpr::Variable(v) => *v == *var,
            IntExpr::Apply(e1, e2) => e1.contains(var) || e2.contains(var),
            IntExpr::Lambda(v, e) => *v != *var && e.contains(var),
            _ => false,
        }
    }

    fn is_var(&self, var: &String) -> (r: bool)
        ensures
            r == (self@ == UTerm::Var(var@)),
    {
        if let IntExpr::Variable(v) = self {
            *v == *var
        } else {
            false
        }
    }

    /// Abstracts `v` out of the abstraction-free term `c`.
    fn eliminate(v: String, c: IntExpr) -> (r: IntExpr)
        ensures
            r@ == eliminate(v@, c@),
        decreases c,
    {
        proof {
            reveal_with_fuel(imodel, 3);
        }
        if !c.contains(&v) {
            IntExpr::Apply(Box::new(IntExpr::K), Box::new(c))
        } else {
            match c {
                IntExpr::Variable(_) => IntExpr::I,
                IntExpr::Apply(c1, c2) => if c2.is_var(&v) && !c1.contains(&v) {
                    *c1
                } else {
                    let left = IntExpr::eliminate(v.clone(), *c1);
                    IntExpr::Apply(
                        Box::new(IntExpr::Apply(Box::new(IntExpr::S), Box::new(left))),
                        Box::new(IntExpr::eliminate(v, *c2)),
                    )
                },
                other => other,
            }
        }
    }

    fn translate(self) -> (r: IntExpr)
        ensures
            r@ == translate(self@),
        decreases usize_of(self@),
    {
        proof {
            reveal_with_fuel(imodel, 3);
            reveal_with_fuel(usize_of, 3);
        }
        match self {
            IntExpr::Apply(e1, e2) => IntExpr::Apply(
                Box::new(IntExpr::translate(*e1)),
                Box::new(IntExpr::translate(*e2)),
            ),
            IntExpr::Lambda(v, e) => if !e.contains(&v) {
                IntExpr::Apply(Box::new(IntExpr::K), Box::new(IntExpr::translate(*e)))
            } else {
                match *e {
                    IntExpr::Variable(_) => IntExpr::I,
                    IntExpr::Apply(e1, e2) => if e2.is_var(&v) && !e1.contains(&v) {
                        e1.translate()
                    } else {
                        let left = IntExpr::translate(IntExpr::Lambda(v.clone(), e1));
                        IntExpr::Apply(
                            Box::new(IntExpr::Apply(Box::new(IntExpr::S), Box::new(left))),
                            Box::new(IntExpr::translate(IntExpr::Lambda(v, e2))),
                        )
                    },
                    inner @ IntExpr::Lambda(_, _) => IntExpr::eliminate(v, inner.translate()),
                    other => IntExpr::Lambda(v, Box::new(other)),
                }
            },
            other => other,
        }
    }
}

} // verus!
