use vstd::prelude::*;
use crate::fol::ast::{Term, TermModel};

verus! {

/// A unifier: a list of substitutions, each a list of pairs of a term and
/// the term that takes its place.
#[derive(Debug, PartialEq, Eq)]
pub struct Unifier(pub Vec<Vec<(Term, Term)>>);

/// The models of the pairs of a substitution, in order.
pub open spec fn pairs_view(pairs: Vec<(Term, Term)>) -> Seq<(TermModel, TermModel)> {
    Seq::new(pairs.len() as nat, |i: int| (pairs[i].0@, pairs[i].1@))
}

impl View for Unifier {
    type V = Seq<Seq<(TermModel, TermModel)>>;

    open spec fn view(&self) -> Seq<Seq<(TermModel, TermModel)>> {
        Seq::new(self.0.len() as nat, |i: int| pairs_view(self.0[i]))
    }
}

impl Unifier {
    /// The unifier without substitutions.
    pub fn new() -> (u: Self)
        ensures
            u@ == Seq::<Seq<(TermModel, TermModel)>>::empty(),
    {
        let u = Unifier(Vec::new());
        assert(u@ =~= Seq::<Seq<(TermModel, TermModel)>>::empty());
        u
    }

    pub fn is_empty(&self) -> (b: bool)
        ensures
            b == (self@.len() == 0),
    {
        self.0.len() == 0
    }

    /// Moves the substitutions of `other` behind those of the unifier.
    pub fn cascade(&mut self, other: &mut Unifier)
        ensures
            final(self)@ == old(self)@ + old(other)@,
            final(other)@ == Seq::<Seq<(TermModel, TermModel)>>::empty(),
    {
        self.0.append(&mut other.0);
        assert(self@ =~= old(self)@ + old(other)@);
        assert(other@ =~= Seq::<Seq<(TermModel, TermModel)>>::empty());
    }
}

} // verus!
