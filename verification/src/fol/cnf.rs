use vstd::prelude::*;
use crate::fol::ast::{And, Cnf, Formula, FormulaModel, Grounded, Or};

verus! {

/// The disjunction of `l` and `r`, distributed over their conjunctions:
/// `l or (a and b)` is `(l or a) and (l or b)`, and `(a and b) or r` is
/// `(a or r) and (b or r)`.
pub open spec fn distribute(l: FormulaModel, r: FormulaModel) -> FormulaModel
    decreases l.size() + r.size(),
{
    match r {
        FormulaModel::And(a, b) => FormulaModel::And(
            Box::new(distribute(l, *a)),
            Box::new(distribute(l, *b)),
        ),
        _ => match l {
            FormulaModel::And(a, b) => FormulaModel::And(
                Box::new(distribute(*a, r)),
                Box::new(distribute(*b, r)),
            ),
            _ => FormulaModel::Or(Box::new(l), Box::new(r)),
        },
    }
}

impl FormulaModel {
    /// The conjunctive normal form of a formula made of conjunctions and
    /// disjunctions over literals. Any other formula is left as it is.
    pub open spec fn cnf(self) -> FormulaModel
        decreases self,
    {
        match self {
            FormulaModel::And(a, b) => FormulaModel::And(Box::new(a.cnf()), Box::new(b.cnf())),
            FormulaModel::Or(a, b) => distribute(a.cnf(), b.cnf()),
            _ => self,
        }
    }
}

/// The disjunction of two formulas in conjunctive normal form, once
/// distributed, is in conjunctive normal form.
pub proof fn lemma_distribute_shape(l: FormulaModel, r: FormulaModel)
    requires
        l.is_cnf(),
        r.is_cnf(),
    ensures
        distribute(l, r).is_cnf(),
    decreases l.size() + r.size(),
{
    match r {
        FormulaModel::And(a, b) => {
            lemma_distribute_shape(l, *a);
            lemma_distribute_shape(l, *b);
        },
        _ => match l {
            FormulaModel::And(a, b) => {
                lemma_distribute_shape(*a, r);
                lemma_distribute_shape(*b, r);
            },
            _ => {},
        },
    }
}

/// Shape of the conjunctive normal form: for a formula without quantifiers
/// and placeholders that is in negation normal form, it is a conjunction of
/// disjunctions of literals.
pub proof fn lemma_cnf_shape(f: FormulaModel)
    requires
        f.quantifier_free(),
        f.is_nnf(),
        f.well_formed(),
    ensures
        f.cnf().is_cnf(),
    decreases f,
{
    match f {
        FormulaModel::And(a, b) => {
            lemma_cnf_shape(*a);
            lemma_cnf_shape(*b);
        },
        FormulaModel::Or(a, b) => {
            lemma_cnf_shape(*a);
            lemma_cnf_shape(*b);
            lemma_distribute_shape(a.cnf(), b.cnf());
        },
        _ => {},
    }
}

/// What `distribute_or` makes of a formula: a disjunction is distributed,
/// any other formula is left as it is.
pub open spec fn distributed(f: FormulaModel) -> FormulaModel {
    match f {
        FormulaModel::Or(l, r) => distribute(*l, *r),
        _ => f,
    }
}

/// Distributes a disjunction over the conjunctions of its two sides.
pub fn distribute_or(formula: Formula<Grounded>) -> (out: Formula<Grounded>)
    ensures
        out@ == distributed(formula@),
    decreases formula@.size(),
{
    match formula {
        Formula::Or(Or { formula1: o1, formula2: o2, .. }) => {
            let ghost left_view = (*o1)@;
            let ghost right_view = (*o2)@;
            assert(formula@.size() == 1 + left_view.size() + right_view.size());
            match *o2 {
                Formula::And(And { formula1: a1, formula2: a2, .. }) => {
                    let p = Formula::or((*o1).clone(), *a1);
                    let q = Formula::or(*o1, *a2);
                    Formula::and(distribute_or(p), distribute_or(q))
                },
                right => {
                    assert(right@ == right_view);
                    match *o1 {
                        Formula::And(And { formula1: a1, formula2: a2, .. }) => {
                            let p = Formula::or(*a1, right.clone());
                            let q = Formula::or(*a2, right);
                            Formula::and(distribute_or(p), distribute_or(q))
                        },
                        left => Formula::or(left, right),
                    }
                },
            }
        },
        other => other,
    }
}

/// The conjunctive normal form of a formula without quantifiers: a
/// conjunction is converted side by side, and a disjunction of the
/// converted sides is distributed.
pub fn to_cnf(formula: Formula<Grounded>) -> (out: Formula<Grounded>)
    ensures
        out@ == formula@.cnf(),
        formula@.quantifier_free() && formula@.is_nnf() && formula@.well_formed()
            ==> out@.is_cnf(),
    decreases formula,
{
    proof {
        if formula@.quantifier_free() && formula@.is_nnf() && formula@.well_formed() {
            lemma_cnf_shape(formula@);
        }
    }
    match formula {
        Formula::And(And { formula1, formula2, .. }) => Formula::and(
            to_cnf(*formula1),
            to_cnf(*formula2),
        ),
        Formula::Or(Or { formula1, formula2, .. }) => distribute_or(
            Formula::or(to_cnf(*formula1), to_cnf(*formula2)),
        ),
        other => other,
    }
}

impl Formula<Grounded> {
    /// The conjunctive normal form of the formula.
    pub fn to_cnf(self) -> (out: Formula<Cnf>)
        ensures
            out@ == self@.cnf(),
            self@.quantifier_free() && self@.is_nnf() && self@.well_formed() ==> out@.is_cnf(),
    {
        to_cnf(self).cast()
    }
}

} // verus!
