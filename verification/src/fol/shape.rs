use vstd::prelude::*;
use crate::fol::ast::{Formula, FormulaModel};
use crate::fol::pnf::first_non_quantified;

verus! {

impl FormulaModel {
    /// The number of nodes of the formula; terms do not count.
    pub open spec fn size(self) -> nat
        decreases self,
    {
        match self {
            FormulaModel::Pred(_, _) => 1,
            FormulaModel::Not(a) => 1 + a.size(),
            FormulaModel::And(a, b) => 1 + a.size() + b.size(),
            FormulaModel::Or(a, b) => 1 + a.size() + b.size(),
            FormulaModel::Implies(a, b) => 1 + a.size() + b.size(),
            FormulaModel::Iff(a, b) => 1 + a.size() + b.size(),
            FormulaModel::ForAll(_, a) => 1 + a.size(),
            FormulaModel::Exists(_, a) => 1 + a.size(),
            FormulaModel::Dummy => 1,
        }
    }

    /// The formula holds no placeholder: every leaf is a predicate.
    pub open spec fn well_formed(self) -> bool
        decreases self,
    {
        match self {
            FormulaModel::Pred(_, _) => true,
            FormulaModel::Not(a) => a.well_formed(),
            FormulaModel::And(a, b) => a.well_formed() && b.well_formed(),
            FormulaModel::Or(a, b) => a.well_formed() && b.well_formed(),
            FormulaModel::Implies(a, b) => a.well_formed() && b.well_formed(),
            FormulaModel::Iff(a, b) => a.well_formed() && b.well_formed(),
            FormulaModel::ForAll(_, a) => a.well_formed(),
            FormulaModel::Exists(_, a) => a.well_formed(),
            FormulaModel::Dummy => false,
        }
    }

    /// The formula holds no implication and no biconditional.
    pub open spec fn arrow_free(self) -> bool
        decreases self,
    {
        match self {
            FormulaModel::Pred(_, _) => true,
            FormulaModel::Not(a) => a.arrow_free(),
            FormulaModel::And(a, b) => a.arrow_free() && b.arrow_free(),
            FormulaModel::Or(a, b) => a.arrow_free() && b.arrow_free(),
            FormulaModel::Implies(_, _) => false,
            FormulaModel::Iff(_, _) => false,
            FormulaModel::ForAll(_, a) => a.arrow_free(),
            FormulaModel::Exists(_, a) => a.arrow_free(),
            FormulaModel::Dummy => true,
        }
    }

    /// A predicate, or the negation of a predicate.
    pub open spec fn is_literal(self) -> bool {
        match self {
            FormulaModel::Pred(_, _) => true,
            FormulaModel::Not(a) => *a is Pred,
            _ => false,
        }
    }

    /// Negation normal form: no implication, no biconditional, and every
    /// negation stands directly in front of a predicate.
    pub open spec fn is_nnf(self) -> bool
        decreases self,
    {
        match self {
            FormulaModel::Pred(_, _) => true,
            FormulaModel::Not(a) => *a is Pred,
            FormulaModel::And(a, b) => a.is_nnf() && b.is_nnf(),
            FormulaModel::Or(a, b) => a.is_nnf() && b.is_nnf(),
            FormulaModel::Implies(_, _) => false,
            FormulaModel::Iff(_, _) => false,
            FormulaModel::ForAll(_, a) => a.is_nnf(),
            FormulaModel::Exists(_, a) => a.is_nnf(),
            FormulaModel::Dummy => true,
        }
    }

    /// The formula holds no quantifier.
    pub open spec fn quantifier_free(self) -> bool
        decreases self,
    {
        match self {
            FormulaModel::Pred(_, _) => true,
            FormulaModel::Not(a) => a.quantifier_free(),
            FormulaModel::And(a, b) => a.quantifier_free() && b.quantifier_free(),
            FormulaModel::Or(a, b) => a.quantifier_free() && b.quantifier_free(),
            FormulaModel::Implies(a, b) => a.quantifier_free() && b.quantifier_free(),
            FormulaModel::Iff(a, b) => a.quantifier_free() && b.quantifier_free(),
            FormulaModel::ForAll(_, _) => false,
            FormulaModel::Exists(_, _) => false,
            FormulaModel::Dummy => true,
        }
    }

    /// The formula holds no existential quantifier.
    pub open spec fn exists_free(self) -> bool
        decreases self,
    {
        match self {
            FormulaModel::Pred(_, _) => true,
            FormulaModel::Not(a) => a.exists_free(),
            FormulaModel::And(a, b) => a.exists_free() && b.exists_free(),
            FormulaModel::Or(a, b) => a.exists_free() && b.exists_free(),
            FormulaModel::Implies(a, b) => a.exists_free() && b.exists_free(),
            FormulaModel::Iff(a, b) => a.exists_free() && b.exists_free(),
            FormulaModel::ForAll(_, a) => a.exists_free(),
            FormulaModel::Exists(_, _) => false,
            FormulaModel::Dummy => true,
        }
    }

    /// What is left of the formula below its leading quantifiers.
    pub open spec fn matrix(self) -> FormulaModel
        decreases self,
    {
        match self {
            FormulaModel::ForAll(_, a) => a.matrix(),
            FormulaModel::Exists(_, a) => a.matrix(),
            _ => self,
        }
    }

    /// The number of existential quantifiers among the leading quantifiers.
    pub open spec fn prefix_exists(self) -> nat
        decreases self,
    {
        match self {
            FormulaModel::ForAll(_, a) => a.prefix_exists(),
            FormulaModel::Exists(_, a) => 1 + a.prefix_exists(),
            _ => 0,
        }
    }

    /// Prenex normal form: a prefix of quantifiers over a quantifier-free matrix.
    pub open spec fn is_pnf(self) -> bool {
        self.matrix().quantifier_free()
    }

    /// A disjunction of literals.
    pub open spec fn is_clause(self) -> bool
        decreases self,
    {
        match self {
            FormulaModel::Or(a, b) => a.is_clause() && b.is_clause(),
            _ => self.is_literal(),
        }
    }

    /// Conjunctive normal form: a conjunction of disjunctions of literals.
    pub open spec fn is_cnf(self) -> bool
        decreases self,
    {
        match self {
            FormulaModel::And(a, b) => a.is_cnf() && b.is_cnf(),
            _ => self.is_clause(),
        }
    }
}

impl<S> Formula<S> {
    /// Whether the formula holds no placeholder.
    pub fn is_well_formed(&self) -> (b: bool)
        ensures
            b == self@.well_formed(),
        decreases self,
    {
        match self {
            Formula::Pred(_) => true,
            Formula::Not(n) => (*n.formula).is_well_formed(),
            Formula::And(a) => (*a.formula1).is_well_formed() && (*a.formula2).is_well_formed(),
            Formula::Or(a) => (*a.formula1).is_well_formed() && (*a.formula2).is_well_formed(),
            Formula::Implies(a) => (*a.formula1).is_well_formed() && (*a.formula2).is_well_formed(),
            Formula::Iff(a) => (*a.formula1).is_well_formed() && (*a.formula2).is_well_formed(),
            Formula::ForAll(q) => (*q.formula).is_well_formed(),
            Formula::Exists(q) => (*q.formula).is_well_formed(),
            Formula::Dummy => false,
        }
    }

    /// Whether the formula is a predicate.
    pub fn is_pred(&self) -> (b: bool)
        ensures
            b == (self@ is Pred),
    {
        match self {
            Formula::Pred(_) => true,
            _ => false,
        }
    }

    /// Whether the formula is a predicate or the negation of a predicate.
    pub fn is_literal(&self) -> (b: bool)
        ensures
            b == self@.is_literal(),
    {
        match self {
            Formula::Pred(_) => true,
            Formula::Not(n) => (*n.formula).is_pred(),
            _ => false,
        }
    }

    /// Whether the formula is in negation normal form.
    pub fn is_nnf(&self) -> (b: bool)
        ensures
            b == self@.is_nnf(),
        decreases self,
    {
        match self {
            Formula::Pred(_) => true,
            Formula::Not(n) => (*n.formula).is_pred(),
            Formula::And(a) => (*a.formula1).is_nnf() && (*a.formula2).is_nnf(),
            Formula::Or(a) => (*a.formula1).is_nnf() && (*a.formula2).is_nnf(),
            Formula::Implies(_) => false,
            Formula::Iff(_) => false,
            Formula::ForAll(q) => (*q.formula).is_nnf(),
            Formula::Exists(q) => (*q.formula).is_nnf(),
            Formula::Dummy => true,
        }
    }

    /// Whether the formula holds no quantifier.
    pub fn is_quantifier_free(&self) -> (b: bool)
        ensures
            b == self@.quantifier_free(),
        decreases self,
    {
        match self {
            Formula::Pred(_) => true,
            Formula::Not(n) => (*n.formula).is_quantifier_free(),
            Formula::And(a) => (*a.formula1).is_quantifier_free()
                && (*a.formula2).is_quantifier_free(),
            Formula::Or(a) => (*a.formula1).is_quantifier_free()
                && (*a.formula2).is_quantifier_free(),
            Formula::Implies(a) => (*a.formula1).is_quantifier_free()
                && (*a.formula2).is_quantifier_free(),
            Formula::Iff(a) => (*a.formula1).is_quantifier_free()
                && (*a.formula2).is_quantifier_free(),
            Formula::ForAll(_) => false,
            Formula::Exists(_) => false,
            Formula::Dummy => true,
        }
    }

    /// Whether the formula holds no existential quantifier.
    pub fn is_exists_free(&self) -> (b: bool)
        ensures
            b == self@.exists_free(),
        decreases self,
    {
        match self {
            Formula::Pred(_) => true,
            Formula::Not(n) => (*n.formula).is_exists_free(),
            Formula::And(a) => (*a.formula1).is_exists_free() && (*a.formula2).is_exists_free(),
            Formula::Or(a) => (*a.formula1).is_exists_free() && (*a.formula2).is_exists_free(),
            Formula::Implies(a) => (*a.formula1).is_exists_free() && (*a.formula2).is_exists_free(),
            Formula::Iff(a) => (*a.formula1).is_exists_free() && (*a.formula2).is_exists_free(),
            Formula::ForAll(q) => (*q.formula).is_exists_free(),
            Formula::Exists(_) => false,
            Formula::Dummy => true,
        }
    }

    /// Whether the formula is in prenex normal form.
    pub fn is_pnf(&self) -> (b: bool)
        ensures
            b == self@.is_pnf(),
    {
        first_non_quantified(self).is_quantifier_free()
    }

    /// Whether the formula is a disjunction of literals.
    pub fn is_clause(&self) -> (b: bool)
        ensures
            b == self@.is_clause(),
        decreases self,
    {
        match self {
            Formula::Or(a) => (*a.formula1).is_clause() && (*a.formula2).is_clause(),
            _ => self.is_literal(),
        }
    }

    /// Whether the formula is in conjunctive normal form.
    pub fn is_cnf(&self) -> (b: bool)
        ensures
            b == self@.is_cnf(),
        decreases self,
    {
        match self {
            Formula::And(a) => (*a.formula1).is_cnf() && (*a.formula2).is_cnf(),
            _ => self.is_clause(),
        }
    }
}

} // verus!
