use vstd::prelude::*;
use vstd::string::*;
use crate::fol::ast::{Formula, FormulaModel, Term, TermModel, Var, terms_view, lemma_terms_elem_decreases};
use crate::fol::free::VarSet;
use crate::fol::fresh::{fresh_name, fresh_name_of};

verus! {

/// The terms of a list, each with `r` in place of the variable `x`.
pub open spec fn subst_terms(ts: Seq<TermModel>, x: Seq<char>, r: TermModel) -> Seq<TermModel>
    decreases ts,
{
    Seq::new(
        ts.len(),
        |i: int|
            if 0 <= i < ts.len() {
                ts[i].subst(x, r)
            } else {
                TermModel::Dummy
            },
    )
}

impl TermModel {
    /// The term with `r` in place of every occurrence of the variable `x`.
    pub open spec fn subst(self, x: Seq<char>, r: TermModel) -> TermModel
        decreases self,
    {
        match self {
            TermModel::Var(name) => if name == x {
                r
            } else {
                self
            },
            TermModel::Func(name, args) => TermModel::Func(name, subst_terms(args, x, r)),
            TermModel::Dummy => TermModel::Dummy,
        }
    }
}

/// A quantifier node, given by its variable `y` and its body, after its
/// variable was renamed to a fresh one: a name that is not free in the body
/// and not in `avoid`, the first such among `y0`, `y1`, `y2`, ...
pub open spec fn rename_binder(y: Seq<char>, body: FormulaModel, avoid: Set<Seq<char>>) -> (
    Seq<char>,
    FormulaModel,
)
    decreases body.size(), 1nat,
{
    let fresh = fresh_name_of(y, body.free_vars().union(avoid));
    (fresh, body.subst(y, TermModel::Var(fresh)))
}

/// A quantifier node, given by its variable `y` and its body, with `r` in
/// place of the free occurrences of `x`. A bound `x` ends the descent; a
/// bound variable that is free in `r` is renamed first.
pub open spec fn subst_binder(y: Seq<char>, body: FormulaModel, x: Seq<char>, r: TermModel) -> (
    Seq<char>,
    FormulaModel,
)
    decreases body.size(), 2nat,
{
    if y == x {
        (y, body)
    } else if r.free_vars().contains(y) {
        let renamed = rename_binder(y, body, r.free_vars().insert(x));
        // Renaming keeps the size (`lemma_subst_shape`); the test lets the
        // definition rest on the size alone.
        if renamed.1.size() == body.size() {
            (renamed.0, renamed.1.subst(x, r))
        } else {
            renamed
        }
    } else {
        (y, body.subst(x, r))
    }
}

impl FormulaModel {
    /// Capture-avoiding substitution: the formula with `r` in place of every
    /// free occurrence of the variable `x`.
    pub open spec fn subst(self, x: Seq<char>, r: TermModel) -> FormulaModel
        decreases self.size(), 0nat,
    {
        match self {
            FormulaModel::Pred(name, args) => FormulaModel::Pred(name, subst_terms(args, x, r)),
            FormulaModel::Not(a) => FormulaModel::Not(Box::new(a.subst(x, r))),
            FormulaModel::And(a, b) => FormulaModel::And(
                Box::new(a.subst(x, r)),
                Box::new(b.subst(x, r)),
            ),
            FormulaModel::Or(a, b) => FormulaModel::Or(
                Box::new(a.subst(x, r)),
                Box::new(b.subst(x, r)),
            ),
            FormulaModel::Implies(a, b) => FormulaModel::Implies(
                Box::new(a.subst(x, r)),
                Box::new(b.subst(x, r)),
            ),
            FormulaModel::Iff(a, b) => FormulaModel::Iff(
                Box::new(a.subst(x, r)),
                Box::new(b.subst(x, r)),
            ),
            FormulaModel::ForAll(y, a) => {
                let q = subst_binder(y, *a, x, r);
                FormulaModel::ForAll(q.0, Box::new(q.1))
            },
            FormulaModel::Exists(y, a) => {
                let q = subst_binder(y, *a, x, r);
                FormulaModel::Exists(q.0, Box::new(q.1))
            },
            FormulaModel::Dummy => FormulaModel::Dummy,
        }
    }

    /// The formula with the variable of its outermost quantifier renamed to a
    /// fresh one that is not in `avoid`; a formula that is no quantification
    /// is left as it is.
    pub open spec fn alpha_renamed(self, avoid: Set<Seq<char>>) -> FormulaModel {
        match self {
            FormulaModel::ForAll(y, a) => {
                let q = rename_binder(y, *a, avoid);
                FormulaModel::ForAll(q.0, Box::new(q.1))
            },
            FormulaModel::Exists(y, a) => {
                let q = rename_binder(y, *a, avoid);
                FormulaModel::Exists(q.0, Box::new(q.1))
            },
            _ => self,
        }
    }
}

/// Substitution changes terms and the names of bound variables, nothing else:
/// the size and the shape of the formula stay as they were.
pub proof fn lemma_subst_shape(f: FormulaModel, x: Seq<char>, r: TermModel)
    ensures
        f.subst(x, r).size() == f.size(),
        f.subst(x, r).well_formed() == f.well_formed(),
        f.subst(x, r).arrow_free() == f.arrow_free(),
        f.subst(x, r).is_nnf() == f.is_nnf(),
        f.subst(x, r).quantifier_free() == f.quantifier_free(),
        f.subst(x, r).exists_free() == f.exists_free(),
        f.subst(x, r).is_pnf() == f.is_pnf(),
        f.subst(x, r).prefix_exists() == f.prefix_exists(),
        f.subst(x, r) is Pred == f is Pred,
    decreases f.size(), 0nat,
{
    match f {
        FormulaModel::Pred(_, _) => {},
        FormulaModel::Not(a) => {
            lemma_subst_shape(*a, x, r);
        },
        FormulaModel::And(a, b) => {
            lemma_subst_shape(*a, x, r);
            lemma_subst_shape(*b, x, r);
        },
        FormulaModel::Or(a, b) => {
            lemma_subst_shape(*a, x, r);
            lemma_subst_shape(*b, x, r);
        },
        FormulaModel::Implies(a, b) => {
            lemma_subst_shape(*a, x, r);
            lemma_subst_shape(*b, x, r);
        },
        FormulaModel::Iff(a, b) => {
            lemma_subst_shape(*a, x, r);
            lemma_subst_shape(*b, x, r);
        },
        FormulaModel::ForAll(y, a) => {
            lemma_subst_binder_shape(y, *a, x, r);
        },
        FormulaModel::Exists(y, a) => {
            lemma_subst_binder_shape(y, *a, x, r);
        },
        FormulaModel::Dummy => {},
    }
}

/// The body under a quantifier keeps its size and shape under substitution.
pub proof fn lemma_subst_binder_shape(y: Seq<char>, a: FormulaModel, x: Seq<char>, r: TermModel)
    ensures
        ({
            let b = subst_binder(y, a, x, r).1;
            &&& b.size() == a.size()
            &&& b.well_formed() == a.well_formed()
            &&& b.arrow_free() == a.arrow_free()
            &&& b.is_nnf() == a.is_nnf()
            &&& b.quantifier_free() == a.quantifier_free()
            &&& b.exists_free() == a.exists_free()
            &&& b.is_pnf() == a.is_pnf()
            &&& b.prefix_exists() == a.prefix_exists()
        }),
        y != x && r.free_vars().contains(y) ==> subst_binder(y, a, x, r) == (
            rename_binder(y, a, r.free_vars().insert(x)).0,
            rename_binder(y, a, r.free_vars().insert(x)).1.subst(x, r),
        ),
    decreases a.size(), 2nat,
{
    if y == x {
    } else if r.free_vars().contains(y) {
        let renamed = rename_binder(y, a, r.free_vars().insert(x));
        lemma_subst_shape(a, y, TermModel::Var(renamed.0));
        lemma_subst_shape(renamed.1, x, r);
    } else {
        lemma_subst_shape(a, x, r);
    }
}

/// Renaming the variable of a quantifier keeps the size and shape of its body.
pub proof fn lemma_rename_binder_shape(y: Seq<char>, a: FormulaModel, avoid: Set<Seq<char>>)
    ensures
        ({
            let b = rename_binder(y, a, avoid).1;
            &&& b.size() == a.size()
            &&& b.well_formed() == a.well_formed()
            &&& b.arrow_free() == a.arrow_free()
            &&& b.is_nnf() == a.is_nnf()
            &&& b.quantifier_free() == a.quantifier_free()
            &&& b.exists_free() == a.exists_free()
            &&& b.is_pnf() == a.is_pnf()
            &&& b.prefix_exists() == a.prefix_exists()
        }),
{
    lemma_subst_shape(a, y, TermModel::Var(rename_binder(y, a, avoid).0));
}

/// The terms of a list, each with `to` in place of the variable `from`.
pub fn substituted_terms(ts: &Vec<Term>, from: &Var, to: &Term) -> (out: Vec<Term>)
    ensures
        terms_view(out) == subst_terms(terms_view(*ts), from@, to@),
    decreases ts,
{
    let mut out: Vec<Term> = Vec::new();
    let mut i: usize = 0;
    while i < ts.len()
        invariant
            i <= ts.len(),
            out.len() == i,
            forall|j: int| 0 <= j < i ==> out[j]@ == ts[j]@.subst(from@, to@),
        decreases ts.len() - i,
    {
        proof {
            lemma_terms_elem_decreases(*ts, i as int);
        }
        let t = ts[i].substituted(from, to);
        out.push(t);
        i += 1;
    }
    assert(terms_view(out) =~= subst_terms(terms_view(*ts), from@, to@));
    out
}

impl Term {
    /// A copy of the term with `to` in place of the variable `from`.
    pub fn substituted(&self, from: &Var, to: &Term) -> (t: Term)
        ensures
            t@ == self@.subst(from@, to@),
        decreases self,
    {
        match self {
            Term::Var(var) => {
                if var.same(from) {
                    to.clone()
                } else {
                    self.clone()
                }
            },
            Term::Func(func) => {
                proof {
                    assert(decreases_to!(*self => self->Func_0));
                    assert(decreases_to!(*func => func.terms));
                }
                Term::func(func.name.as_str(), substituted_terms(&func.terms, from, to))
            },
            Term::Dummy => Term::Dummy,
        }
    }

    /// Puts `to` in place of every occurrence of the variable `from`.
    pub fn substitute(&mut self, from: Var, to: Term)
        ensures
            final(self)@ == old(self)@.subst(from@, to@),
    {
        let t = self.substituted(&from, &to);
        *self = t;
    }
}

/// Puts `to` in place of every occurrence of the variable `from` in `term`.
pub fn term_substitute(term: &mut Term, from: Var, to: Term)
    ensures
        final(term)@ == old(term)@.subst(from@, to@),
{
    term.substitute(from, to)
}

/// The variable and body of a quantifier after the variable was renamed to
/// a fresh one outside `avoid`.
pub fn renamed_binder<S>(var: &Var, body: &Formula<S>, avoid: &VarSet) -> (q: (Var, Formula<S>))
    ensures
        (q.0@, q.1@) == rename_binder(var@, body@, avoid@),
    decreases body@.size(), 1nat,
{
    let mut taken = body.free_vars();
    taken.extend(avoid);
    let fresh = fresh_name(var, &taken);
    let renamed = body.substituted(var, &fresh.to_term());
    (fresh, renamed)
}

/// The variable and body of a quantifier after `to` was put in place of the
/// free occurrences of `from`.
pub fn substituted_binder<S>(var: &Var, body: &Formula<S>, from: &Var, to: &Term) -> (q: (
    Var,
    Formula<S>,
))
    ensures
        (q.0@, q.1@) == subst_binder(var@, body@, from@, to@),
    decreases body@.size(), 2nat,
{
    if var.same(from) {
        (var.clone(), body.clone())
    } else {
        let mut avoid = to.free_vars();
        if avoid.contains(var) {
            avoid.insert(from.clone());
            let q = renamed_binder(var, body, &avoid);
            proof {
                lemma_rename_binder_shape(var@, body@, avoid@);
            }
            let inner = q.1.substituted(from, to);
            (q.0, inner)
        } else {
            (var.clone(), body.substituted(from, to))
        }
    }
}

impl<S> Formula<S> {
    /// A copy of the formula with `to` in place of every free occurrence of
    /// the variable `from`; bound variables are renamed where `to` would be
    /// captured.
    pub fn substituted(&self, from: &Var, to: &Term) -> (f: Formula<S>)
        ensures
            f@ == self@.subst(from@, to@),
        decreases self@.size(), 0nat,
    {
        match self {
            Formula::Pred(pred) => Formula::pred(
                pred.name.as_str(),
                substituted_terms(&pred.terms, from, to),
            ),
            Formula::Not(not) => Formula::not((*not.formula).substituted(from, to)),
            Formula::And(and) => Formula::and(
                (*and.formula1).substituted(from, to),
                (*and.formula2).substituted(from, to),
            ),
            Formula::Or(or) => Formula::or(
                (*or.formula1).substituted(from, to),
                (*or.formula2).substituted(from, to),
            ),
            Formula::Implies(imp) => Formula::implies(
                (*imp.formula1).substituted(from, to),
                (*imp.formula2).substituted(from, to),
            ),
            Formula::Iff(iff) => Formula::iff(
                (*iff.formula1).substituted(from, to),
                (*iff.formula2).substituted(from, to),
            ),
            Formula::ForAll(forall) => {
                let q = substituted_binder(&forall.var, &*forall.formula, from, to);
                Formula::for_all(q.0, q.1)
            },
            Formula::Exists(exists) => {
                let q = substituted_binder(&exists.var, &*exists.formula, from, to);
                Formula::there_exists(q.0, q.1)
            },
            Formula::Dummy => Formula::Dummy,
        }
    }

    /// Puts `to` in place of every free occurrence of the variable `from`,
    /// without capture.
    pub fn substitute(&mut self, from: Var, to: Term)
        ensures
            final(self)@ == old(self)@.subst(from@, to@),
    {
        let f = self.substituted(&from, &to);
        *self = f;
    }

    /// Renames the variable of the outermost quantifier to a fresh one that
    /// is not in `avoid`.
    pub fn alpha_rename_avoiding(&mut self, avoid: &VarSet)
        ensures
            final(self)@ == old(self)@.alpha_renamed(avoid@),
    {
        let taken = self.take();
        let renamed = match taken {
            Formula::ForAll(forall) => {
                let q = renamed_binder(&forall.var, &*forall.formula, avoid);
                Formula::for_all(q.0, q.1)
            },
            Formula::Exists(exists) => {
                let q = renamed_binder(&exists.var, &*exists.formula, avoid);
                Formula::there_exists(q.0, q.1)
            },
            other => other,
        };
        *self = renamed;
    }

    /// Renames the variable of the outermost quantifier to a fresh one.
    pub fn alpha_rename(&mut self)
        ensures
            final(self)@ == old(self)@.alpha_renamed(Set::empty()),
    {
        let avoid = VarSet::new();
        self.alpha_rename_avoiding(&avoid);
    }
}

/// Puts `to` in place of every free occurrence of the variable `from` in
/// `formula`, without capture.
pub fn formula_substitute<T>(formula: &mut Formula<T>, from: Var, to: Term)
    ensures
        final(formula)@ == old(formula)@.subst(from@, to@),
{
    formula.substitute(from, to)
}

/// Renames the variable of the outermost quantifier of `formula` to a fresh one.
pub fn alpha_rename<T>(formula: &mut Formula<T>)
    ensures
        final(formula)@ == old(formula)@.alpha_renamed(Set::empty()),
{
    formula.alpha_rename()
}

} // verus!
