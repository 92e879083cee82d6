use vstd::prelude::*;
use vstd::arithmetic::mul::lemma_mul_is_distributive_add_other_way;
use crate::fol::ast::{FormulaModel, TermModel};
use crate::fol::free::free_vars_of_terms;
use crate::fol::fresh::lemma_fresh_name_of;
use crate::fol::subst::{lemma_subst_shape, rename_binder, subst_binder, subst_terms};

verus! {

/// How often the variable `v` occurs in the first `n` terms of a list.
pub open spec fn occurrences_in_terms(ts: Seq<TermModel>, n: nat, v: Seq<char>) -> nat
    decreases ts, n,
{
    if n == 0 || n > ts.len() {
        0
    } else {
        occurrences_in_terms(ts, (n - 1) as nat, v) + ts[n - 1].occurrences(v)
    }
}

impl TermModel {
    /// How often the variable `v` occurs in the term.
    pub open spec fn occurrences(self, v: Seq<char>) -> nat
        decreases self, 0nat,
    {
        match self {
            TermModel::Var(name) => if name == v {
                1
            } else {
                0
            },
            TermModel::Func(_, args) => occurrences_in_terms(args, args.len(), v),
            TermModel::Dummy => 0,
        }
    }
}

impl FormulaModel {
    /// How often the variable `v` occurs free in the formula.
    pub open spec fn free_occurrences(self, v: Seq<char>) -> nat
        decreases self,
    {
        match self {
            FormulaModel::Pred(_, args) => occurrences_in_terms(args, args.len(), v),
            FormulaModel::Not(a) => a.free_occurrences(v),
            FormulaModel::And(a, b) => a.free_occurrences(v) + b.free_occurrences(v),
            FormulaModel::Or(a, b) => a.free_occurrences(v) + b.free_occurrences(v),
            FormulaModel::Implies(a, b) => a.free_occurrences(v) + b.free_occurrences(v),
            FormulaModel::Iff(a, b) => a.free_occurrences(v) + b.free_occurrences(v),
            FormulaModel::ForAll(y, a) => if y == v {
                0
            } else {
                a.free_occurrences(v)
            },
            FormulaModel::Exists(y, a) => if y == v {
                0
            } else {
                a.free_occurrences(v)
            },
            FormulaModel::Dummy => 0,
        }
    }
}

/// What substitution owes: the occurrences of `v` that were there, unless
/// `v` is the replaced variable, and one copy of those in `r` for each
/// occurrence of `x`.
pub open spec fn occurrences_after(before: nat, of_x: nat, in_r: nat, v_is_x: bool) -> nat {
    (if v_is_x {
        0
    } else {
        before
    }) + of_x * in_r
}

/// A variable of the first `n` terms of a list is one that occurs in them.
pub proof fn lemma_terms_vars_occur(ts: Seq<TermModel>, n: nat, v: Seq<char>)
    ensures
        free_vars_of_terms(ts, n).contains(v) <==> occurrences_in_terms(ts, n, v) > 0,
    decreases ts, n,
{
    if n == 0 || n > ts.len() {
    } else {
        lemma_terms_vars_occur(ts, (n - 1) as nat, v);
        lemma_term_vars_occur(ts[n - 1], v);
    }
}

/// A variable of a term is one that occurs in it.
pub proof fn lemma_term_vars_occur(t: TermModel, v: Seq<char>)
    ensures
        t.free_vars().contains(v) <==> t.occurrences(v) > 0,
    decreases t, 0nat,
{
    match t {
        TermModel::Func(_, args) => {
            lemma_terms_vars_occur(args, args.len(), v);
        },
        _ => {},
    }
}

/// A free variable of a formula is one that occurs free in it.
pub proof fn lemma_free_vars_occur(f: FormulaModel, v: Seq<char>)
    ensures
        f.free_vars().contains(v) <==> f.free_occurrences(v) > 0,
    decreases f,
{
    match f {
        FormulaModel::Pred(_, args) => {
            lemma_terms_vars_occur(args, args.len(), v);
        },
        FormulaModel::Not(a) => {
            lemma_free_vars_occur(*a, v);
        },
        FormulaModel::And(a, b) => {
            lemma_free_vars_occur(*a, v);
            lemma_free_vars_occur(*b, v);
        },
        FormulaModel::Or(a, b) => {
            lemma_free_vars_occur(*a, v);
            lemma_free_vars_occur(*b, v);
        },
        FormulaModel::Implies(a, b) => {
            lemma_free_vars_occur(*a, v);
            lemma_free_vars_occur(*b, v);
        },
        FormulaModel::Iff(a, b) => {
            lemma_free_vars_occur(*a, v);
            lemma_free_vars_occur(*b, v);
        },
        FormulaModel::ForAll(_, a) => {
            lemma_free_vars_occur(*a, v);
        },
        FormulaModel::Exists(_, a) => {
            lemma_free_vars_occur(*a, v);
        },
        FormulaModel::Dummy => {},
    }
}

/// The sum of what two parts owe is what the whole owes.
proof fn lemma_occurrences_after_add(b1: nat, x1: nat, b2: nat, x2: nat, in_r: nat, v_is_x: bool)
    ensures
        occurrences_after(b1, x1, in_r, v_is_x) + occurrences_after(b2, x2, in_r, v_is_x)
            == occurrences_after(b1 + b2, x1 + x2, in_r, v_is_x),
{
    lemma_mul_is_distributive_add_other_way(in_r as int, x1 as int, x2 as int);
}

/// Occurrences in a list of terms after substitution.
pub proof fn lemma_subst_terms_occurrences(
    ts: Seq<TermModel>,
    n: nat,
    x: Seq<char>,
    r: TermModel,
    v: Seq<char>,
)
    requires
        n <= ts.len(),
    ensures
        occurrences_in_terms(subst_terms(ts, x, r), n, v) == occurrences_after(
            occurrences_in_terms(ts, n, v),
            occurrences_in_terms(ts, n, x),
            r.occurrences(v),
            v == x,
        ),
    decreases ts, n,
{
    if n == 0 {
        assert(0 * r.occurrences(v) == 0);
    } else {
        lemma_subst_terms_occurrences(ts, (n - 1) as nat, x, r, v);
        lemma_subst_term_occurrences(ts[n - 1], x, r, v);
        lemma_occurrences_after_add(
            occurrences_in_terms(ts, (n - 1) as nat, v),
            occurrences_in_terms(ts, (n - 1) as nat, x),
            ts[n - 1].occurrences(v),
            ts[n - 1].occurrences(x),
            r.occurrences(v),
            v == x,
        );
    }
}

/// Occurrences in a term after substitution.
pub proof fn lemma_subst_term_occurrences(t: TermModel, x: Seq<char>, r: TermModel, v: Seq<char>)
    ensures
        t.subst(x, r).occurrences(v) == occurrences_after(
            t.occurrences(v),
            t.occurrences(x),
            r.occurrences(v),
            v == x,
        ),
    decreases t, 0nat,
{
    match t {
        TermModel::Var(name) => {
            assert(1 * r.occurrences(v) == r.occurrences(v));
            assert(0 * r.occurrences(v) == 0);
        },
        TermModel::Func(_, args) => {
            lemma_subst_terms_occurrences(args, args.len(), x, r, v);
        },
        TermModel::Dummy => {
            assert(0 * r.occurrences(v) == 0);
        },
    }
}

/// Capture avoidance, occurrence by occurrence. After `r` was put in place
/// of `x`, a variable `v` occurs free as often as it did before (not at all
/// before, if `v` is `x`), and once more for each occurrence of `v` in `r`
/// and each free occurrence of `x`: no free occurrence was lost to a
/// quantifier, neither one of the formula nor one of a copy of `r`.
pub proof fn lemma_subst_free_occurrences(
    f: FormulaModel,
    x: Seq<char>,
    r: TermModel,
    v: Seq<char>,
)
    ensures
        f.subst(x, r).free_occurrences(v) == occurrences_after(
            f.free_occurrences(v),
            f.free_occurrences(x),
            r.occurrences(v),
            v == x,
        ),
    decreases f.size(), 0nat,
{
    match f {
        FormulaModel::Pred(_, args) => {
            lemma_subst_terms_occurrences(args, args.len(), x, r, v);
        },
        FormulaModel::Not(a) => {
            lemma_subst_free_occurrences(*a, x, r, v);
        },
        FormulaModel::And(a, b) => {
            lemma_subst_pair_occurrences(*a, *b, x, r, v);
        },
        FormulaModel::Or(a, b) => {
            lemma_subst_pair_occurrences(*a, *b, x, r, v);
        },
        FormulaModel::Implies(a, b) => {
            lemma_subst_pair_occurrences(*a, *b, x, r, v);
        },
        FormulaModel::Iff(a, b) => {
            lemma_subst_pair_occurrences(*a, *b, x, r, v);
        },
        FormulaModel::ForAll(y, a) => {
            lemma_subst_binder_occurrences(y, *a, x, r, v);
        },
        FormulaModel::Exists(y, a) => {
            lemma_subst_binder_occurrences(y, *a, x, r, v);
        },
        FormulaModel::Dummy => {
            assert(0 * r.occurrences(v) == 0);
        },
    }
}

/// The two parts of a binary connective, taken together.
proof fn lemma_subst_pair_occurrences(
    a: FormulaModel,
    b: FormulaModel,
    x: Seq<char>,
    r: TermModel,
    v: Seq<char>,
)
    ensures
        a.subst(x, r).free_occurrences(v) + b.subst(x, r).free_occurrences(v) == occurrences_after(
            a.free_occurrences(v) + b.free_occurrences(v),
            a.free_occurrences(x) + b.free_occurrences(x),
            r.occurrences(v),
            v == x,
        ),
    decreases a.size() + b.size(), 3nat,
{
    lemma_subst_free_occurrences(a, x, r, v);
    lemma_subst_free_occurrences(b, x, r, v);
    lemma_occurrences_after_add(
        a.free_occurrences(v),
        a.free_occurrences(x),
        b.free_occurrences(v),
        b.free_occurrences(x),
        r.occurrences(v),
        v == x,
    );
}

/// Occurrences under a quantifier after substitution: with `q` the variable
/// and body that `subst_binder` gives, `v` occurs free in the quantification
/// over `q` as the law says of the quantification over `y` and `a`.
proof fn lemma_subst_binder_occurrences(
    y: Seq<char>,
    a: FormulaModel,
    x: Seq<char>,
    r: TermModel,
    v: Seq<char>,
)
    ensures
        ({
            let q = subst_binder(y, a, x, r);
            (if q.0 == v {
                0
            } else {
                q.1.free_occurrences(v)
            }) == occurrences_after(
                if y == v {
                    0
                } else {
                    a.free_occurrences(v)
                },
                if y == x {
                    0
                } else {
                    a.free_occurrences(x)
                },
                r.occurrences(v),
                v == x,
            )
        }),
    decreases a.size(), 2nat,
{
    let rv = r.occurrences(v);
    assert(0 * rv == 0);
    if y == x {
    } else if r.free_vars().contains(y) {
        let avoid = r.free_vars().insert(x);
        let q = rename_binder(y, a, avoid);
        let y1 = q.0;
        let a1 = q.1;
        lemma_subst_shape(a, y, TermModel::Var(y1));
        lemma_free_finite(a);
        lemma_term_finite(r);
        lemma_fresh_name_of(y, a.free_vars().union(avoid));
        // y1 is fresh: not free in a, not in r, not x
        assert(!a.free_vars().contains(y1));
        assert(!r.free_vars().contains(y1));
        assert(y1 != x);
        assert(y1 != y);
        lemma_free_vars_occur(a, y1);
        lemma_term_vars_occur(r, y1);
        lemma_term_vars_occur(r, y);
        // the renaming: a1 = a[y -> y1]
        lemma_subst_free_occurrences(a, y, TermModel::Var(y1), v);
        lemma_subst_free_occurrences(a, y, TermModel::Var(y1), x);
        // the substitution proper: a2 = a1[x -> r]
        lemma_subst_free_occurrences(a1, x, r, v);
        let ay = a.free_occurrences(y);
        assert(ay * 0 == 0);
        assert(ay * 1 == ay);
        if v == y1 {
            assert(rv == 0);
            assert(a.free_occurrences(x) * rv == 0) by (nonlinear_arith)
                requires
                    rv == 0,
            ;
        } else if v == y {
            assert(a1.free_occurrences(v) == 0);
            assert(a1.free_occurrences(x) == a.free_occurrences(x));
        } else {
            assert(a1.free_occurrences(x) == a.free_occurrences(x));
            if v == x {
            } else {
                assert(a1.free_occurrences(v) == a.free_occurrences(v));
            }
        }
    } else {
        lemma_subst_free_occurrences(a, x, r, v);
        lemma_term_vars_occur(r, y);
        if y == v {
            assert(rv == 0);
            assert(a.free_occurrences(x) * rv == 0) by (nonlinear_arith)
                requires
                    rv == 0,
            ;
        }
    }
}

/// The variables of the first `n` terms of a list are finitely many.
pub proof fn lemma_terms_finite(ts: Seq<TermModel>, n: nat)
    ensures
        free_vars_of_terms(ts, n).finite(),
    decreases ts, n,
{
    if n == 0 || n > ts.len() {
    } else {
        lemma_terms_finite(ts, (n - 1) as nat);
        lemma_term_finite(ts[n - 1]);
    }
}

/// The variables of a term are finitely many.
pub proof fn lemma_term_finite(t: TermModel)
    ensures
        t.free_vars().finite(),
    decreases t, 0nat,
{
    match t {
        TermModel::Func(_, args) => {
            lemma_terms_finite(args, args.len());
        },
        _ => {},
    }
}

/// The free variables of a formula are finitely many.
pub proof fn lemma_free_finite(f: FormulaModel)
    ensures
        f.free_vars().finite(),
    decreases f,
{
    match f {
        FormulaModel::Pred(_, args) => {
            lemma_terms_finite(args, args.len());
        },
        FormulaModel::Not(a) => {
            lemma_free_finite(*a);
        },
        FormulaModel::And(a, b) => {
            lemma_free_finite(*a);
            lemma_free_finite(*b);
        },
        FormulaModel::Or(a, b) => {
            lemma_free_finite(*a);
            lemma_free_finite(*b);
        },
        FormulaModel::Implies(a, b) => {
            lemma_free_finite(*a);
            lemma_free_finite(*b);
        },
        FormulaModel::Iff(a, b) => {
            lemma_free_finite(*a);
            lemma_free_finite(*b);
        },
        FormulaModel::ForAll(_, a) => {
            lemma_free_finite(*a);
        },
        FormulaModel::Exists(_, a) => {
            lemma_free_finite(*a);
        },
        FormulaModel::Dummy => {},
    }
}

/// Free-variable soundness of substitution: a free variable of the result
/// is a free variable of the formula other than `x`, or a variable of `r`.
pub proof fn lemma_subst_free_vars(f: FormulaModel, x: Seq<char>, r: TermModel)
    ensures
        f.subst(x, r).free_vars().subset_of(f.free_vars().remove(x).union(r.free_vars())),
{
    assert forall|v: Seq<char>| f.subst(x, r).free_vars().contains(v) implies f.free_vars().remove(
        x,
    ).union(r.free_vars()).contains(v) by {
        lemma_subst_free_occurrences(f, x, r, v);
        lemma_free_vars_occur(f.subst(x, r), v);
        lemma_free_vars_occur(f, v);
        lemma_term_vars_occur(r, v);
        let rv = r.occurrences(v);
        if rv == 0 {
            assert(f.free_occurrences(x) * rv == 0) by (nonlinear_arith)
                requires
                    rv == 0,
            ;
        }
    }
}

/// No capture: where `x` occurs free in the formula, every variable of `r`
/// is free in the result, and so is every free variable of the formula other
/// than `x`. No quantifier of the result binds a variable that was free.
pub proof fn lemma_subst_keeps_free(f: FormulaModel, x: Seq<char>, r: TermModel)
    ensures
        f.free_vars().remove(x).subset_of(f.subst(x, r).free_vars()),
        f.free_vars().contains(x) ==> r.free_vars().subset_of(f.subst(x, r).free_vars()),
{
    assert forall|v: Seq<char>| f.free_vars().remove(x).contains(v) implies f.subst(
        x,
        r,
    ).free_vars().contains(v) by {
        lemma_subst_free_occurrences(f, x, r, v);
        lemma_free_vars_occur(f.subst(x, r), v);
        lemma_free_vars_occur(f, v);
    }
    if f.free_vars().contains(x) {
        assert forall|v: Seq<char>| r.free_vars().contains(v) implies f.subst(
            x,
            r,
        ).free_vars().contains(v) by {
            lemma_subst_free_occurrences(f, x, r, v);
            lemma_free_vars_occur(f.subst(x, r), v);
            lemma_free_vars_occur(f, x);
            lemma_term_vars_occur(r, v);
            let fx = f.free_occurrences(x);
            let rv = r.occurrences(v);
            assert(fx * rv > 0) by (nonlinear_arith)
                requires
                    fx > 0,
                    rv > 0,
            ;
        }
    }
}

} // verus!
