use vstd::prelude::*;
use vstd::string::*;
use crate::fol::ast::{Formula, FormulaModel};

verus! {

/// The models of the formulas of a list, in order.
pub open spec fn formulas_view<S>(v: Vec<Formula<S>>) -> Seq<FormulaModel> {
    Seq::new(v.len() as nat, |i: int| v[i]@)
}

/// The first `n` formulas of a list as text, separated by a comma and a blank.
pub open spec fn formulas_text(fs: Seq<FormulaModel>, n: nat) -> Seq<char>
    decreases n,
{
    if n == 0 || n > fs.len() {
        Seq::empty()
    } else if n == 1 {
        fs[0].text()
    } else {
        formulas_text(fs, (n - 1) as nat) + ", "@ + fs[n - 1].text()
    }
}

/// A sequent as text: the formulas on the left, the turnstile, the
/// formulas on the right, and the end of the line.
pub open spec fn sequent_text(left: Seq<FormulaModel>, right: Seq<FormulaModel>) -> Seq<char> {
    formulas_text(left, left.len()) + " ⊢ "@ + formulas_text(right, right.len()) + "\n"@
}

/// A sequent: the formulas on the right follow from those on the left.
#[derive(Debug, PartialEq, Eq)]
pub struct Sequent<S> {
    pub left: Vec<Formula<S>>,
    pub right: Vec<Formula<S>>,
    pub depth: usize,
}

/// Appends the formulas of a list as text, separated by a comma and a blank.
pub fn push_formulas_text<S>(formulas: &Vec<Formula<S>>, out: &mut String)
    ensures
        final(out)@ == old(out)@ + formulas_text(formulas_view(*formulas), formulas.len() as nat),
{
    let ghost fs = formulas_view(*formulas);
    let mut i: usize = 0;
    assert(out@ =~= old(out)@ + formulas_text(fs, 0));
    while i < formulas.len()
        invariant
            i <= formulas.len(),
            fs == formulas_view(*formulas),
            out@ == old(out)@ + formulas_text(fs, i as nat),
        decreases formulas.len() - i,
    {
        if i > 0 {
            out.append(", ");
        }
        formulas[i].push_text(out);
        assert(out@ =~= old(out)@ + formulas_text(fs, (i + 1) as nat));
        i += 1;
    }
}

impl<S> Sequent<S> {
    /// The sequent as text.
    pub fn display(&self) -> (text: String)
        ensures
            text@ == sequent_text(formulas_view(self.left), formulas_view(self.right)),
    {
        let mut out = String::new();
        push_formulas_text(&self.left, &mut out);
        out.append(" ⊢ ");
        push_formulas_text(&self.right, &mut out);
        out.append("\n");
        assert(out@ =~= sequent_text(formulas_view(self.left), formulas_view(self.right)));
        out
    }
}

} // verus!
