//! Capture-avoiding substitution and normal-order beta reduction.
use vstd::prelude::*;

use crate::lambda::{free_in, model, LambdaExpr, Term};

verus! {

/// The number of nodes of a term.
pub open spec fn size(t: Term) -> nat
    decreases t,
{
    match t {
        Term::Var(_) => 1,
        Term::App(a, b) => 1 + size(*a) + size(*b),
        Term::Abs(_, e) => 1 + size(*e),
    }
}

/// Whether the name `n` appears anywhere in `t`, bound, binding or free.
pub open spec fn occurs(t: Term, n: Seq<char>) -> bool
    decreases t,
{
    match t {
        Term::Var(v) => v == n,
        Term::App(a, b) => occurs(*a, n) || occurs(*b, n),
        Term::Abs(v, e) => v == n || occurs(*e, n),
    }
}

/// The length of the longest name in `t`.
pub open spec fn longest_name(t: Term) -> nat
    decreases t,
{
    match t {
        Term::Var(v) => v.len(),
        Term::App(a, b) => {
            let la = longest_name(*a);
            let lb = longest_name(*b);
            if la >= lb { la } else { lb }
        },
        Term::Abs(v, e) => {
            let le = longest_name(*e);
            if v.len() >= le { v.len() } else { le }
        },
    }
}

/// Whether `n` cannot serve as the new name of a binder over `body` while
/// `arg` is substituted for `param`.
pub open spec fn in_use(n: Seq<char>, param: Seq<char>, body: Term, arg: Term) -> bool {
    n == param || free_in(arg, n) || occurs(body, n)
}

/// A bound on the length of every name in use.
pub open spec fn name_bound(param: Seq<char>, body: Term, arg: Term) -> int {
    (param.len() + longest_name(body) + longest_name(arg)) as int
}

/// Appends apostrophes to `n` until it is no longer in use.
pub open spec fn fresh(n: Seq<char>, param: Seq<char>, body: Term, arg: Term) -> Seq<char>
    decreases name_bound(param, body, arg) + 1 - n.len() via fresh_decreases
{
    if in_use(n, param, body, arg) {
        fresh(n.push('\''), param, body, arg)
    } else {
        n
    }
}

proof fn lemma_occurs_len(t: Term, n: Seq<char>)
    ensures
        free_in(t, n) ==> occurs(t, n),
        occurs(t, n) ==> n.len() <= longest_name(t),
    decreases t,
{
    match t {
        Term::Var(_) => {},
        Term::App(a, b) => {
            lemma_occurs_len(*a, n);
            lemma_occurs_len(*b, n);
        },
        Term::Abs(_, e) => lemma_occurs_len(*e, n),
    }
}

proof fn lemma_in_use_len(n: Seq<char>, param: Seq<char>, body: Term, arg: Term)
    ensures
        in_use(n, param, body, arg) ==> n.len() <= name_bound(param, body, arg),
{
    lemma_occurs_len(body, n);
    lemma_occurs_len(arg, n);
}

#[via_fn]
proof fn fresh_decreases(n: Seq<char>, param: Seq<char>, body: Term, arg: Term) {
    lemma_in_use_len(n, param, body, arg);
}

/// The fresh name is not in use and is longer than the name it started from.
proof fn lemma_fresh(n: Seq<char>, param: Seq<char>, body: Term, arg: Term)
    ensures
        !in_use(fresh(n, param, body, arg), param, body, arg),
        fresh(n, param, body, arg).len() >= n.len(),
    decreases name_bound(param, body, arg) + 1 - n.len(),
{
    if in_use(n, param, body, arg) {
        lemma_in_use_len(n, param, body, arg);
        lemma_fresh(n.push('\''), param, body, arg);
    }
}

/// Replaces the free occurrences of `v` in `t` by the name `n`, which must
/// not appear in `t`.
pub open spec fn rename(t: Term, v: Seq<char>, n: Seq<char>) -> Term
    decreases t,
{
    match t {
        Term::Var(w) => if w == v { Term::Var(n) } else { t },
        Term::App(a, b) => Term::App(Box::new(rename(*a, v, n)), Box::new(rename(*b, v, n))),
        Term::Abs(w, e) => if w == v { t } else { Term::Abs(w, Box::new(rename(*e, v, n))) },
    }
}

proof fn lemma_rename_size(t: Term, v: Seq<char>, n: Seq<char>)
    ensures
        size(rename(t, v, n)) == size(t),
    decreases t,
{
    match t {
        Term::Var(_) => {},
        Term::App(a, b) => {
            lemma_rename_size(*a, v, n);
            lemma_rename_size(*b, v, n);
        },
        Term::Abs(_, e) => lemma_rename_size(*e, v, n),
    }
}

/// Capture-avoiding substitution of `r` for the free occurrences of `x` in `t`.
pub open spec fn subst(t: Term, x: Seq<char>, r: Term) -> Term
    decreases size(t) via subst_decreases
{
    match t {
        Term::Var(v) => if v == x { r } else { t },
        Term::App(a, b) => Term::App(Box::new(subst(*a, x, r)), Box::new(subst(*b, x, r))),
        Term::Abs(v, e) => if v == x {
            t
        } else if free_in(r, v) {
            let n = fresh(v.push('\''), x, *e, r);
            Term::Abs(n, Box::new(subst(rename(*e, v, n), x, r)))
        } else {
            Term::Abs(v, Box::new(subst(*e, x, r)))
        },
    }
}

#[via_fn]
proof fn subst_decreases(t: Term, x: Seq<char>, r: Term) {
    if let Term::Abs(v, e) = t {
        lemma_rename_size(*e, v, fresh(v.push('\''), x, *e, r));
    }
}

proof fn lemma_rename_free(t: Term, v: Seq<char>, n: Seq<char>, y: Seq<char>)
    requires
        !occurs(t, n),
        n != v,
    ensures
        free_in(rename(t, v, n), y) == ((y == n && free_in(t, v)) || (y != v && y != n
            && free_in(t, y))),
    decreases t,
{
    lemma_occurs_len(t, n);
    match t {
        Term::Var(_) => {},
        Term::App(a, b) => {
            lemma_rename_free(*a, v, n, y);
            lemma_rename_free(*b, v, n, y);
        },
        Term::Abs(_, e) => {
            lemma_occurs_len(*e, n);
            lemma_rename_free(*e, v, n, y);
        },
    }
}

/// Substitution captures nothing: `y` is free in `t[x := r]` exactly when it
/// is free in `r` and `x` was free in `t`, or it is free in `t` and is not `x`.
pub proof fn lemma_subst_free(t: Term, x: Seq<char>, r: Term, y: Seq<char>)
    ensures
        free_in(subst(t, x, r), y) == if free_in(t, x) {
            (free_in(t, y) && y != x) || free_in(r, y)
        } else {
            free_in(t, y)
        },
    decreases size(t),
{
    match t {
        Term::Var(_) => {},
        Term::App(a, b) => {
            lemma_subst_free(*a, x, r, y);
            lemma_subst_free(*b, x, r, y);
        },
        Term::Abs(v, e) => {
            if v != x {
                if free_in(r, v) {
                    let n = fresh(v.push('\''), x, *e, r);
                    lemma_fresh(v.push('\''), x, *e, r);
                    assert(n != v) by {
                        assert(n.len() > v.len());
                    }
                    lemma_occurs_len(*e, n);
                    lemma_rename_free(*e, v, n, y);
                    lemma_rename_free(*e, v, n, x);
                    lemma_rename_size(*e, v, n);
                    lemma_subst_free(rename(*e, v, n), x, r, y);
                } else {
                    lemma_subst_free(*e, x, r, y);
                }
            }
        },
    }
}

/// One normal-order reduction step; the flag says whether a redex was found.
pub open spec fn beta(t: Term) -> (Term, bool)
    decreases t,
{
    match t {
        Term::Var(_) => (t, false),
        Term::Abs(v, e) => {
            let (e2, b) = beta(*e);
            (Term::Abs(v, Box::new(e2)), b)
        },
        Term::App(f, a) => match *f {
            Term::Var(_) => {
                let (a2, b) = beta(*a);
                (Term::App(f, Box::new(a2)), b)
            },
            Term::App(_, _) => {
                let (f2, b) = beta(*f);
                if b {
                    (Term::App(Box::new(f2), a), true)
                } else {
                    let (a2, b2) = beta(*a);
                    (Term::App(Box::new(f2), Box::new(a2)), b2)
                }
            },
            Term::Abs(v, body) => (subst(*body, v, *a), true),
        },
    }
}

/// At most `limit` reduction steps: the term reached and the steps taken.
pub open spec fn reduce(t: Term, limit: nat) -> (Term, nat)
    decreases limit,
{
    if limit == 0 {
        (t, 0)
    } else {
        let (t2, b) = beta(t);
        if !b {
            (t2, 0)
        } else {
            let (t3, k) = reduce(t2, (limit - 1) as nat);
            (t3, k + 1)
        }
    }
}

/// A term in which no step applies is left as it is.
pub proof fn lemma_normal_form_fixed(t: Term)
    ensures
        !beta(t).1 ==> beta(t).0 == t,
    decreases t,
{
    match t {
        Term::Var(_) => {},
        Term::Abs(_, e) => lemma_normal_form_fixed(*e),
        Term::App(f, a) => {
            lemma_normal_form_fixed(*f);
            lemma_normal_form_fixed(*a);
        },
    }
}

/// Reduction never takes more steps than allowed, and stops short of the
/// limit only at a term in which no step applies.
pub proof fn lemma_reduce_count(t: Term, limit: nat)
    ensures
        reduce(t, limit).1 <= limit,
        reduce(t, limit).1 < limit ==> !beta(reduce(t, limit).0).1,
    decreases limit,
{
    if limit > 0 {
        let (t2, b) = beta(t);
        if !b {
            lemma_normal_form_fixed(t);
        } else {
            lemma_reduce_count(t2, (limit - 1) as nat);
        }
    }
}

impl LambdaExpr {
    /// Whether the name `n` appears anywhere in this term.
    pub fn occurs(&self, n: &String) -> (r: bool)
        ensures
            r == occurs(self@, n@),
        decreases self,
    {
        match self {
            LambdaExpr::Variable(v) => *v == *n,
            LambdaExpr::Apply(e1, e2) => e1.occurs(n) || e2.occurs(n),
            LambdaExpr::Lambda(v, e) => *v == *n || e.occurs(n),
        }
    }

    /// Renames the free occurrences of `v` to `n`.
    fn rename(self, v: &String, n: &String) -> (r: LambdaExpr)
        ensures
            r@ == rename(self@, v@, n@),
        decreases self,
    {
        proof {
            reveal_with_fuel(model, 2);
        }
        match self {
            LambdaExpr::Variable(w) => if w == *v {
                LambdaExpr::Variable(n.clone())
            } else {
                LambdaExpr::Variable(w)
            },
            LambdaExpr::Apply(e1, e2) => LambdaExpr::Apply(
                Box::new(e1.rename(v, n)),
                Box::new(e2.rename(v, n)),
            ),
            LambdaExpr::Lambda(w, e) => if w == *v {
                LambdaExpr::Lambda(w, e)
            } else {
                LambdaExpr::Lambda(w, Box::new(e.rename(v, n)))
            },
        }
    }

    /// Capture-avoiding substitution of `arg` for the free occurrences of
    /// `param`. A binder that would capture a free variable of `arg` is
    /// renamed first, by appending apostrophes until the name is unused.
    pub fn replace(self, param: &String, arg: &LambdaExpr) -> (r: LambdaExpr)
        ensures
            r@ == subst(self@, param@, arg@),
        decreases size(self@),
    {
        proof {
            reveal_with_fuel(model, 2);
            reveal_with_fuel(size, 2);
        }
        match self {
            LambdaExpr::Variable(v) => if v == *param {
                arg.clone()
            } else {
                LambdaExpr::Variable(v)
            },
            LambdaExpr::Apply(e1, e2) => LambdaExpr::Apply(
                Box::new(e1.replace(param, arg)),
                Box::new(e2.replace(param, arg)),
            ),
            LambdaExpr::Lambda(v, e) => if v == *param {
                LambdaExpr::Lambda(v, e)
            } else if arg.contains(&v) {
                let new_name = fresh_name(&v, param, &e, arg);
                proof {
                    lemma_rename_size(e@, v@, new_name@);
                }
                let renamed = e.rename(&v, &new_name);
                LambdaExpr::Lambda(new_name, Box::new(renamed.replace(param, arg)))
            } else {
                LambdaExpr::Lambda(v, Box::new(e.replace(param, arg)))
            },
        }
    }

    /// Performs one normal-order (leftmost-outermost) reduction step.
    /// The flag is false when no redex was found.
    pub fn beta(self) -> (r: (LambdaExpr, bool))
        ensures
            (r.0@, r.1) == beta(self@),
        decreases self,
    {
        proof {
            reveal_with_fuel(model, 3);
        }
        match self {
            LambdaExpr::Variable(v) => (LambdaExpr::Variable(v), false),
            LambdaExpr::Lambda(v, e) => {
                let (e, res) = e.beta();
                (LambdaExpr::Lambda(v, Box::new(e)), res)
            },
            LambdaExpr::Apply(e1, e2) => match *e1 {
                LambdaExpr::Variable(v) => {
                    let (e2, res) = e2.beta();
                    (LambdaExpr::Apply(Box::new(LambdaExpr::Variable(v)), Box::new(e2)), res)
                },
                LambdaExpr::Apply(f1, f2) => {
                    let (e1, res) = LambdaExpr::Apply(f1, f2).beta();
                    if res {
                        (LambdaExpr::Apply(Box::new(e1), e2), true)
                    } else {
                        let (e2, res2) = e2.beta();
                        (LambdaExpr::Apply(Box::new(e1), Box::new(e2)), res2)
                    }
                },
                LambdaExpr::Lambda(v, e) => (e.replace(&v, &e2), true),
            },
        }
    }

    /// Performs up to `limit` reduction steps and returns the term reached
    /// with the number of steps taken; fewer than `limit` steps means a
    /// normal form was reached.
    pub fn repeated_beta(self, limit: u32) -> (r: (LambdaExpr, u32))
        ensures
            (r.0@, r.1 as nat) == reduce(self@, limit as nat),
    {
        let ghost start = self@;
        let mut ret = self;
        let mut i: u32 = 0;
        while i < limit
            invariant
                i <= limit,
                start == self@,
                reduce(start, limit as nat).0 == reduce(ret@, (limit - i) as nat).0,
                reduce(start, limit as nat).1 == i + reduce(ret@, (limit - i) as nat).1,
            decreases limit - i,
        {
            let ghost cur = ret@;
            let (next, res) = ret.beta();
            assert(reduce(cur, (limit - i) as nat) == if res {
                (reduce(next@, (limit - i - 1) as nat).0, reduce(next@, (limit - i - 1) as nat).1 + 1)
            } else {
                (next@, 0nat)
            });
            if !res {
                return (next, i);
            }
            ret = next;
            i = i + 1;
        }
        (ret, limit)
    }
}

/// Appends apostrophes to `v` until the name is not in use.
fn fresh_name(v: &String, param: &String, body: &LambdaExpr, arg: &LambdaExpr) -> (r: String)
    ensures
        r@ == fresh(v@.push('\''), param@, body@, arg@),
{
    let mut name = v.clone();
    proof {
        reveal_strlit("'");
    }
    name.append("'");
    let ghost start = name@;
    assert(start == v@.push('\''));
    while name == *param || arg.contains(&name) || body.occurs(&name)
        invariant
            fresh(name@, param@, body@, arg@) == fresh(start, param@, body@, arg@),
        decreases name_bound(param@, body@, arg@) + 1 - name@.len(),
    {
        proof {
            lemma_in_use_len(name@, param@, body@, arg@);
            reveal_strlit("'");
        }
        let ghost prev = name@;
        name.append("'");
        assert(name@ =~= prev.push('\''));
    }
    name
}

} // verus!
