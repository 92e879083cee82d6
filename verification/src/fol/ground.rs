use vstd::prelude::*;
use crate::fol::ast::{Exists, ForAll, Formula, Grounded, Skolemized};
use crate::fol::pnf::lemma_matrix_shape;

verus! {

/// The formula without its leading quantifiers.
pub fn ground(formula: Formula<Skolemized>) -> (out: Formula<Grounded>)
    ensures
        out@ == formula@.matrix(),
        formula@.is_pnf() ==> out@.quantifier_free(),
        formula@.is_nnf() ==> out@.is_nnf(),
        formula@.well_formed() ==> out@.well_formed(),
{
    let mut current = formula;
    loop
        invariant
            current@.matrix() == formula@.matrix(),
        decreases current@.size(),
    {
        match current {
            Formula::ForAll(ForAll { formula: inner, .. }) => {
                current = *inner;
            },
            Formula::Exists(Exists { formula: inner, .. }) => {
                current = *inner;
            },
            other => {
                proof {
                    lemma_matrix_shape(formula@);
                }
                return other.cast();
            },
        }
    }
}

impl Formula<Skolemized> {
    /// The formula without its leading quantifiers. The variables that
    /// they bound are free in what is left.
    pub fn ground(self) -> (out: Formula<Grounded>)
        ensures
            out@ == self@.matrix(),
            self@.is_pnf() ==> out@.quantifier_free(),
            self@.is_nnf() ==> out@.is_nnf(),
            self@.well_formed() ==> out@.well_formed(),
    {
        ground(self)
    }
}

} // verus!
