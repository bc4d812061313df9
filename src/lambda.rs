//! Lambda terms, their mathematical model, free variables and rendering.
use vstd::prelude::*;

verus! {

/// The mathematical model of a lambda term: names are character sequences.
pub enum Term {
    Var(Seq<char>),
    App(Box<Term>, Box<Term>),
    Abs(Seq<char>, Box<Term>),
}

/// A lambda term.
#[derive(Debug, PartialEq, Eq)]
pub enum LambdaExpr {
    Variable(String),
    Apply(Box<LambdaExpr>, Box<LambdaExpr>),
    Lambda(String, Box<LambdaExpr>),
}

/// The model of an executable term.
pub open spec fn model(e: &LambdaExpr) -> Term
    decreases e,
{
    match e {
        LambdaExpr::Variable(v) => Term::Var(v@),
        LambdaExpr::Apply(a, b) => Term::App(Box::new(model(a)), Box::new(model(b))),
        LambdaExpr::Lambda(v, b) => Term::Abs(v@, Box::new(model(b))),
    }
}

impl View for LambdaExpr {
    type V = Term;

    open spec fn view(&self) -> Term {
        model(self)
    }
}

/// Whether `x` occurs free in `t`.
pub open spec fn free_in(t: Term, x: Seq<char>) -> bool
    decreases t,
{
    match t {
        Term::Var(v) => v == x,
        Term::App(a, b) => free_in(*a, x) || free_in(*b, x),
        Term::Abs(v, e) => v != x && free_in(*e, x),
    }
}

/// Calculus notation: an application's right operand is parenthesized
/// exactly when it is itself an application, and an abstraction prints as
/// `λ<param> <body>`.
pub open spec fn render(t: Term) -> Seq<char>
    decreases t,
{
    match t {
        Term::Var(v) => v,
        Term::App(a, b) => render(*a) + seq![' '] + match *b {
            Term::App(_, _) => seq!['('] + render(*b) + seq![')'],
            _ => render(*b),
        },
        Term::Abs(v, e) => seq!['λ'] + v + seq![' '] + render(*e),
    }
}

impl Clone for LambdaExpr {
    fn clone(&self) -> (r: LambdaExpr)
        ensures
            r@ == self@,
        decreases self,
    {
        proof {
            reveal_with_fuel(model, 2);
        }
        match self {
            LambdaExpr::Variable(v) => LambdaExpr::Variable(v.clone()),
            LambdaExpr::Apply(e1, e2) => LambdaExpr::Apply(
                Box::new((**e1).clone()),
                Box::new((**e2).clone()),
            ),
            LambdaExpr::Lambda(v, e) => LambdaExpr::Lambda(v.clone(), Box::new((**e).clone())),
        }
    }
}

impl LambdaExpr {
    /// Appends the calculus notation of this term to `out`.
    pub fn append_render(&self, out: &mut String)
        ensures
            final(out)@ == old(out)@ + render(self@),
        decreases self,
    {
        proof {
            reveal_with_fuel(model, 2);
            reveal_strlit(" ");
            reveal_strlit("(");
            reveal_strlit(")");
            reveal_strlit("λ");
        }
        let ghost start = out@;
        match self {
            LambdaExpr::Variable(v) => out.append(v.as_str()),
            LambdaExpr::Apply(e1, e2) => {
                e1.append_render(out);
                out.append(" ");
                match &**e2 {
                    LambdaExpr::Apply(_, _) => {
                        out.append("(");
                        e2.append_render(out);
                        out.append(")");
                    },
                    _ => e2.append_render(out),
                }
                assert(out@ =~= start + render(self@));
            },
            LambdaExpr::Lambda(v, e) => {
                out.append("λ");
                out.append(v.as_str());
                out.append(" ");
                e.append_render(out);
                assert(out@ =~= start + render(self@));
            },
        }
    }

    /// The calculus notation of this term.
    pub fn render(&self) -> (r: String)
        ensures
            r@ == render(self@),
    {
        let mut out = String::new();
        self.append_render(&mut out);
        assert(out@ =~= render(self@));
        out
    }

    /// Whether `var` occurs free in this term.
    pub fn contains(&self, var: &String) -> (r: bool)
        ensures
            r == free_in(self@, var@),
        decreases self,
    {
        match self {
            LambdaExpr::Variable(v) => *v == *var,
            LambdaExpr::Apply(e1, e2) => e1.contains(var) || e2.contains(var),
            LambdaExpr::Lambda(v, e) => *v != *var && e.contains(var),
        }
    }
}

} // verus!
