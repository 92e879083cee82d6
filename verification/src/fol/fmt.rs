use vstd::prelude::*;
use vstd::string::*;
use crate::fol::ast::{
    lemma_terms_elem_decreases, terms_view, Formula, FormulaModel, Term, TermModel,
};

verus! {

/// The texts of the first `n` terms of a list, separated by commas.
pub open spec fn terms_text(ts: Seq<TermModel>, n: nat) -> Seq<char>
    decreases ts, n,
{
    if n == 0 || n > ts.len() {
        Seq::empty()
    } else if n == 1 {
        ts[0].text()
    } else {
        terms_text(ts, (n - 1) as nat) + ","@ + ts[n - 1].text()
    }
}

impl TermModel {
    /// The term as text: a variable by its name, a function application by
    /// its name and its arguments in parentheses.
    pub open spec fn text(self) -> Seq<char>
        decreases self, 0nat,
    {
        match self {
            TermModel::Var(name) => name,
            TermModel::Func(name, args) => name + "("@ + terms_text(args, args.len()) + ")"@,
            TermModel::Dummy => "Dummy"@,
        }
    }
}

impl FormulaModel {
    /// The formula as text, with the signs of logic and with parentheses
    /// round every connective and quantifier.
    pub open spec fn text(self) -> Seq<char>
        decreases self,
    {
        match self {
            FormulaModel::Pred(name, args) => name + "("@ + terms_text(args, args.len()) + ")"@,
            FormulaModel::Not(a) => "¬"@ + a.text(),
            FormulaModel::And(a, b) => "("@ + a.text() + " ∧ "@ + b.text() + ")"@,
            FormulaModel::Or(a, b) => "("@ + a.text() + " ∨ "@ + b.text() + ")"@,
            FormulaModel::Implies(a, b) => "("@ + a.text() + " → "@ + b.text() + ")"@,
            FormulaModel::Iff(a, b) => "("@ + a.text() + " ↔ "@ + b.text() + ")"@,
            FormulaModel::ForAll(x, a) => "(∀"@ + x + "."@ + a.text() + ")"@,
            FormulaModel::Exists(x, a) => "(∃"@ + x + "."@ + a.text() + ")"@,
            FormulaModel::Dummy => "Dummy"@,
        }
    }
}

/// Appends the texts of the terms of a list, separated by commas.
pub fn push_terms_text(ts: &Vec<Term>, out: &mut String)
    ensures
        final(out)@ == old(out)@ + terms_text(terms_view(*ts), ts.len() as nat),
    decreases ts, 1nat,
{
    let ghost args = terms_view(*ts);
    let mut i: usize = 0;
    assert(out@ =~= old(out)@ + terms_text(args, 0));
    while i < ts.len()
        invariant
            i <= ts.len(),
            args == terms_view(*ts),
            out@ == old(out)@ + terms_text(args, i as nat),
        decreases ts.len() - i,
    {
        proof {
            lemma_terms_elem_decreases(*ts, i as int);
        }
        if i > 0 {
            out.append(",");
        }
        ts[i].push_text(out);
        assert(out@ =~= old(out)@ + terms_text(args, (i + 1) as nat));
        i += 1;
    }
}

impl Term {
    /// Appends the term as text.
    pub fn push_text(&self, out: &mut String)
        ensures
            final(out)@ == old(out)@ + self@.text(),
        decreases self, 0nat,
    {
        match self {
            Term::Var(var) => {
                out.append(var.name.as_str());
            },
            Term::Func(func) => {
                proof {
                    assert(decreases_to!(*self => self->Func_0));
                    assert(decreases_to!(*func => func.terms));
                }
                out.append(func.name.as_str());
                out.append("(");
                push_terms_text(&func.terms, out);
                out.append(")");
                assert(out@ =~= old(out)@ + self@.text());
            },
            Term::Dummy => {
                out.append("Dummy");
            },
        }
    }

    /// The term as text.
    pub fn dislay(&self) -> (text: String)
        ensures
            text@ == self@.text(),
    {
        let mut out = String::new();
        self.push_text(&mut out);
        assert(out@ =~= self@.text());
        out
    }
}

impl<S> Formula<S> {
    /// Appends the formula as text.
    pub fn push_text(&self, out: &mut String)
        ensures
            final(out)@ == old(out)@ + self@.text(),
        decreases self,
    {
        match self {
            Formula::Pred(pred) => {
                out.append(pred.name.as_str());
                out.append("(");
                push_terms_text(&pred.terms, out);
                out.append(")");
                assert(out@ =~= old(out)@ + self@.text());
            },
            Formula::Not(not) => {
                out.append("¬");
                (*not.formula).push_text(out);
                assert(out@ =~= old(out)@ + self@.text());
            },
            Formula::And(and) => {
                out.append("(");
                (*and.formula1).push_text(out);
                out.append(" ∧ ");
                (*and.formula2).push_text(out);
                out.append(")");
                assert(out@ =~= old(out)@ + self@.text());
            },
            Formula::Or(or) => {
                out.append("(");
                (*or.formula1).push_text(out);
                out.append(" ∨ ");
                (*or.formula2).push_text(out);
                out.append(")");
                assert(out@ =~= old(out)@ + self@.text());
            },
            Formula::Implies(imp) => {
                out.append("(");
                (*imp.formula1).push_text(out);
                out.append(" → ");
                (*imp.formula2).push_text(out);
                out.append(")");
                assert(out@ =~= old(out)@ + self@.text());
            },
            Formula::Iff(iff) => {
                out.append("(");
                (*iff.formula1).push_text(out);
                out.append(" ↔ ");
                (*iff.formula2).push_text(out);
                out.append(")");
                assert(out@ =~= old(out)@ + self@.text());
            },
            Formula::ForAll(forall) => {
                out.append("(∀");
                out.append(forall.var.name.as_str());
                out.append(".");
                (*forall.formula).push_text(out);
                out.append(")");
                assert(out@ =~= old(out)@ + self@.text());
            },
            Formula::Exists(exists) => {
                out.append("(∃");
                out.append(exists.var.name.as_str());
                out.append(".");
                (*exists.formula).push_text(out);
                out.append(")");
                assert(out@ =~= old(out)@ + self@.text());
            },
            Formula::Dummy => {
                out.append("Dummy");
            },
        }
    }

    /// The formula as text.
    pub fn display(&self) -> (text: String)
        ensures
            text@ == self@.text(),
    {
        let mut out = String::new();
        self.push_text(&mut out);
        assert(out@ =~= self@.text());
        out
    }
}

} // verus!
