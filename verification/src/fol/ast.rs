use vstd::prelude::*;
use vstd::string::*;
use std::marker::PhantomData;

verus! {

/// Stage marker: a formula as written, with no shape guarantee.
#[derive(Debug, Clone, Copy, PartialEq, Eq, Hash)]
pub struct Raw;

/// Stage marker: negation normal form.
#[derive(Debug, Clone, Copy, PartialEq, Eq, Hash)]
pub struct Nnf;

/// Stage marker: prenex normal form.
#[derive(Debug, Clone, Copy, PartialEq, Eq, Hash)]
pub struct Pnf;

/// Stage marker: no existential quantifier is left.
#[derive(Debug, Clone, Copy, PartialEq, Eq, Hash)]
pub struct Skolemized;

/// Stage marker: the quantifier prefix has been dropped.
#[derive(Debug, Clone, Copy, PartialEq, Eq, Hash)]
pub struct Grounded;

/// Stage marker: conjunctive normal form.
#[derive(Debug, Clone, Copy, PartialEq, Eq, Hash)]
pub struct Cnf;

/// Mathematical model of a term. Names are character sequences.
pub enum TermModel {
    Var(Seq<char>),
    Func(Seq<char>, Seq<TermModel>),
    Dummy,
}

/// Mathematical model of a formula. The stage marker of the executable type
/// leaves no trace in the model.
pub enum FormulaModel {
    Pred(Seq<char>, Seq<TermModel>),
    Not(Box<FormulaModel>),
    And(Box<FormulaModel>, Box<FormulaModel>),
    Or(Box<FormulaModel>, Box<FormulaModel>),
    Implies(Box<FormulaModel>, Box<FormulaModel>),
    Iff(Box<FormulaModel>, Box<FormulaModel>),
    ForAll(Seq<char>, Box<FormulaModel>),
    Exists(Seq<char>, Box<FormulaModel>),
    Dummy,
}

/// A variable, known by its name.
#[derive(Hash, PartialEq, Eq, Debug)]
pub struct Var {
    pub name: String,
}

/// A function application: a name and the arguments, in order. A constant
/// is a function without arguments.
#[derive(Hash, PartialEq, Eq, Debug)]
pub struct Func {
    pub name: String,
    pub terms: Vec<Term>,
}

/// A term: a variable or a function application. `Dummy` is the
/// placeholder that `take` leaves behind.
#[derive(Hash, PartialEq, Eq, Debug)]
pub enum Term {
    Var(Var),
    Func(Func),
    Dummy,
}

/// An atom: the name of a predicate and its arguments, in order.
#[derive(Hash, PartialEq, Eq, Debug)]
pub struct Pred<S> {
    pub name: String,
    pub terms: Vec<Term>,
    pub _marker: PhantomData<S>,
}

/// A negation.
#[derive(Hash, PartialEq, Eq, Debug)]
pub struct Not<S> {
    pub formula: Box<Formula<S>>,
    pub _marker: PhantomData<S>,
}

/// A conjunction.
#[derive(Hash, PartialEq, Eq, Debug)]
pub struct And<S> {
    pub formula1: Box<Formula<S>>,
    pub formula2: Box<Formula<S>>,
    pub _marker: PhantomData<S>,
}

/// A disjunction.
#[derive(Hash, PartialEq, Eq, Debug)]
pub struct Or<S> {
    pub formula1: Box<Formula<S>>,
    pub formula2: Box<Formula<S>>,
    pub _marker: PhantomData<S>,
}

/// An implication.
#[derive(Hash, PartialEq, Eq, Debug)]
pub struct Implies<S> {
    pub formula1: Box<Formula<S>>,
    pub formula2: Box<Formula<S>>,
    pub _marker: PhantomData<S>,
}

/// A biconditional.
#[derive(Hash, PartialEq, Eq, Debug)]
pub struct Iff<S> {
    pub formula1: Box<Formula<S>>,
    pub formula2: Box<Formula<S>>,
    pub _marker: PhantomData<S>,
}

/// A universal quantification: the bound variable and the body.
#[derive(Hash, PartialEq, Eq, Debug)]
pub struct ForAll<S> {
    pub var: Var,
    pub formula: Box<Formula<S>>,
    pub _marker: PhantomData<S>,
}

/// An existential quantification: the bound variable and the body.
#[derive(Hash, PartialEq, Eq, Debug)]
pub struct Exists<S> {
    pub var: Var,
    pub formula: Box<Formula<S>>,
    pub _marker: PhantomData<S>,
}

/// A formula at the stage `S`. The stage is a marker: it tells which
/// transformations apply, and leaves the formula as it is. `Dummy` is the
/// placeholder that `take` leaves behind.
#[derive(Hash, PartialEq, Eq, Debug)]
pub enum Formula<S> {
    Pred(Pred<S>),
    Not(Not<S>),
    And(And<S>),
    Or(Or<S>),
    Implies(Implies<S>),
    Iff(Iff<S>),
    ForAll(ForAll<S>),
    Exists(Exists<S>),
    Dummy,
}

impl View for Var {
    type V = Seq<char>;

    open spec fn view(&self) -> Seq<char> {
        self.name@
    }
}

/// The models of the terms of a list, in order.
pub open spec fn terms_view(ts: Vec<Term>) -> Seq<TermModel>
    decreases ts,
{
    Seq::new(
        ts.len() as nat,
        |i: int|
            if 0 <= i < ts.len() {
                ts[i]@
            } else {
                TermModel::Dummy
            },
    )
}

impl View for Term {
    type V = TermModel;

    open spec fn view(&self) -> TermModel
        decreases self,
    {
        match self {
            Term::Var(v) => TermModel::Var(v.name@),
            Term::Func(f) => TermModel::Func(f.name@, terms_view(f.terms)),
            Term::Dummy => TermModel::Dummy,
        }
    }
}

impl<S> View for Formula<S> {
    type V = FormulaModel;

    open spec fn view(&self) -> FormulaModel
        decreases self,
    {
        match self {
            Formula::Pred(p) => FormulaModel::Pred(p.name@, terms_view(p.terms)),
            Formula::Not(n) => FormulaModel::Not(Box::new((*n.formula)@)),
            Formula::And(a) => FormulaModel::And(Box::new((*a.formula1)@), Box::new((*a.formula2)@)),
            Formula::Or(a) => FormulaModel::Or(Box::new((*a.formula1)@), Box::new((*a.formula2)@)),
            Formula::Implies(a) => FormulaModel::Implies(
                Box::new((*a.formula1)@),
                Box::new((*a.formula2)@),
            ),
            Formula::Iff(a) => FormulaModel::Iff(Box::new((*a.formula1)@), Box::new((*a.formula2)@)),
            Formula::ForAll(q) => FormulaModel::ForAll(q.var.name@, Box::new((*q.formula)@)),
            Formula::Exists(q) => FormulaModel::Exists(q.var.name@, Box::new((*q.formula)@)),
            Formula::Dummy => FormulaModel::Dummy,
        }
    }
}

/// An argument of a function term is smaller than the term itself.
pub proof fn lemma_func_arg_decreases(t: Term, i: int)
    requires
        t is Func,
        0 <= i < t->Func_0.terms.len(),
    ensures
        decreases_to!(t => t->Func_0.terms[i]),
{
    let f = t->Func_0;
    assert(decreases_to!(t => t->Func_0));
    assert(decreases_to!(f => f.terms));
    assert(decreases_to!(f.terms => f.terms[i]));
}

/// An element of a list of terms is smaller than the list.
pub proof fn lemma_terms_elem_decreases(ts: Vec<Term>, i: int)
    requires
        0 <= i < ts.len(),
    ensures
        decreases_to!(ts => ts[i]),
{
}

impl Var {
    pub fn from_string(name: String) -> (v: Self)
        ensures
            v@ == name@,
    {
        Var { name }
    }

    pub fn to_term(&self) -> (t: Term)
        ensures
            t@ == TermModel::Var(self@),
    {
        Term::Var(self.clone())
    }

    /// Whether two variables carry the same name.
    pub fn same(&self, other: &Var) -> (b: bool)
        ensures
            b == (self@ == other@),
    {
        self.name == other.name
    }
}

impl Clone for Var {
    fn clone(&self) -> (res: Self)
        ensures
            res@ == self@,
    {
        Var { name: self.name.clone() }
    }
}

/// A copy of a list of terms, with the same models in the same order.
pub fn clone_terms(ts: &Vec<Term>) -> (out: Vec<Term>)
    ensures
        terms_view(out) == terms_view(*ts),
    decreases ts,
{
    let mut out: Vec<Term> = Vec::new();
    let mut i: usize = 0;
    while i < ts.len()
        invariant
            i <= ts.len(),
            out.len() == i,
            forall|j: int| 0 <= j < i ==> out[j]@ == ts[j]@,
        decreases ts.len() - i,
    {
        proof {
            lemma_terms_elem_decreases(*ts, i as int);
        }
        let t = ts[i].clone();
        out.push(t);
        i += 1;
    }
    assert(terms_view(out) =~= terms_view(*ts));
    out
}

impl Clone for Term {
    fn clone(&self) -> (res: Self)
        ensures
            res@ == self@,
        decreases self,
    {
        match self {
            Term::Var(v) => Term::Var(v.clone()),
            Term::Func(f) => {
                proof {
                    assert(decreases_to!(*self => self->Func_0));
                    assert(decreases_to!(*f => f.terms));
                }
                Term::Func(Func { name: f.name.clone(), terms: clone_terms(&f.terms) })
            },
            Term::Dummy => Term::Dummy,
        }
    }
}

impl Clone for Func {
    fn clone(&self) -> (res: Self)
        ensures
            res.name@ == self.name@,
            terms_view(res.terms) == terms_view(self.terms),
    {
        Func { name: self.name.clone(), terms: clone_terms(&self.terms) }
    }
}

impl Default for Term {
    fn default() -> (t: Self)
        ensures
            t == Term::Dummy,
    {
        Term::Dummy
    }
}

impl Term {
    pub fn var(name: &str) -> (t: Term)
        ensures
            t@ == TermModel::Var(name@),
    {
        Term::Var(Var { name: name.to_owned() })
    }

    pub fn func(name: &str, terms: Vec<Term>) -> (t: Term)
        ensures
            t@ == TermModel::Func(name@, terms_view(terms)),
    {
        Term::Func(Func { name: name.to_owned(), terms })
    }

    /// Moves the term out and leaves the placeholder behind.
    pub fn take(&mut self) -> (t: Self)
        ensures
            t == *old(self),
            *final(self) == Term::Dummy,
    {
        let mut other = Term::Dummy;
        std::mem::swap(self, &mut other);
        other
    }
}

impl<S> Default for Formula<S> {
    fn default() -> (f: Self)
        ensures
            f == Formula::<S>::Dummy,
    {
        Formula::Dummy
    }
}

impl<S> Clone for Formula<S> {
    fn clone(&self) -> (res: Self)
        ensures
            res@ == self@,
        decreases self,
    {
        match self {
            Formula::Pred(p) => Formula::Pred(
                Pred { name: p.name.clone(), terms: clone_terms(&p.terms), _marker: PhantomData },
            ),
            Formula::Not(n) => Formula::not((*n.formula).clone()),
            Formula::And(a) => Formula::and((*a.formula1).clone(), (*a.formula2).clone()),
            Formula::Or(a) => Formula::or((*a.formula1).clone(), (*a.formula2).clone()),
            Formula::Implies(a) => Formula::implies((*a.formula1).clone(), (*a.formula2).clone()),
            Formula::Iff(a) => Formula::iff((*a.formula1).clone(), (*a.formula2).clone()),
            Formula::ForAll(q) => Formula::for_all(q.var.clone(), (*q.formula).clone()),
            Formula::Exists(q) => Formula::there_exists(q.var.clone(), (*q.formula).clone()),
            Formula::Dummy => Formula::Dummy,
        }
    }
}

impl<S> Formula<S> {
    pub fn pred(name: &str, terms: Vec<Term>) -> (f: Formula<S>)
        ensures
            f@ == FormulaModel::Pred(name@, terms_view(terms)),
    {
        Formula::Pred(Pred { name: name.to_owned(), terms, _marker: PhantomData })
    }

    pub fn implies(formula1: Formula<S>, formula2: Formula<S>) -> (f: Formula<S>)
        ensures
            f@ == FormulaModel::Implies(Box::new(formula1@), Box::new(formula2@)),
    {
        Formula::Implies(
            Implies {
                formula1: Box::new(formula1),
                formula2: Box::new(formula2),
                _marker: PhantomData,
            },
        )
    }

    pub fn iff(formula1: Formula<S>, formula2: Formula<S>) -> (f: Formula<S>)
        ensures
            f@ == FormulaModel::Iff(Box::new(formula1@), Box::new(formula2@)),
    {
        Formula::Iff(
            Iff { formula1: Box::new(formula1), formula2: Box::new(formula2), _marker: PhantomData },
        )
    }

    pub fn or(formula1: Formula<S>, formula2: Formula<S>) -> (f: Formula<S>)
        ensures
            f@ == FormulaModel::Or(Box::new(formula1@), Box::new(formula2@)),
    {
        Formula::Or(
            Or { formula1: Box::new(formula1), formula2: Box::new(formula2), _marker: PhantomData },
        )
    }

    pub fn and(formula1: Formula<S>, formula2: Formula<S>) -> (f: Formula<S>)
        ensures
            f@ == FormulaModel::And(Box::new(formula1@), Box::new(formula2@)),
    {
        Formula::And(
            And { formula1: Box::new(formula1), formula2: Box::new(formula2), _marker: PhantomData },
        )
    }

    pub fn not(formula: Formula<S>) -> (f: Formula<S>)
        ensures
            f@ == FormulaModel::Not(Box::new(formula@)),
    {
        Formula::Not(Not { formula: Box::new(formula), _marker: PhantomData })
    }

    /// The universal quantification of `formula` over `var`.
    pub fn for_all(var: Var, formula: Formula<S>) -> (f: Formula<S>)
        ensures
            f@ == FormulaModel::ForAll(var@, Box::new(formula@)),
    {
        Formula::ForAll(ForAll { var, formula: Box::new(formula), _marker: PhantomData })
    }

    /// The existential quantification of `formula` over `var`.
    pub fn there_exists(var: Var, formula: Formula<S>) -> (f: Formula<S>)
        ensures
            f@ == FormulaModel::Exists(var@, Box::new(formula@)),
    {
        Formula::Exists(Exists { var, formula: Box::new(formula), _marker: PhantomData })
    }

    /// Moves the formula out and leaves the placeholder behind.
    pub fn take(&mut self) -> (f: Self)
        ensures
            f == *old(self),
            *final(self) == Formula::<S>::Dummy,
    {
        let mut other = Formula::Dummy;
        std::mem::swap(self, &mut other);
        other
    }

    /// The same formula under another stage marker.
    pub fn cast<T>(self) -> (f: Formula<T>)
        ensures
            f@ == self@,
        decreases self,
    {
        match self {
            Formula::Pred(Pred { name, terms, .. }) => Formula::Pred(
                Pred { name, terms, _marker: PhantomData },
            ),
            Formula::Not(Not { formula, .. }) => Formula::not((*formula).cast()),
            Formula::And(And { formula1, formula2, .. }) => Formula::and(
                (*formula1).cast(),
                (*formula2).cast(),
            ),
            Formula::Or(Or { formula1, formula2, .. }) => Formula::or(
                (*formula1).cast(),
                (*formula2).cast(),
            ),
            Formula::Implies(Implies { formula1, formula2, .. }) => Formula::implies(
                (*formula1).cast(),
                (*formula2).cast(),
            ),
            Formula::Iff(Iff { formula1, formula2, .. }) => Formula::iff(
                (*formula1).cast(),
                (*formula2).cast(),
            ),
            Formula::ForAll(ForAll { var, formula, .. }) => Formula::for_all(
                var,
                (*formula).cast(),
            ),
            Formula::Exists(Exists { var, formula, .. }) => Formula::there_exists(
                var,
                (*formula).cast(),
            ),
            Formula::Dummy => Formula::Dummy,
        }
    }
}

/// The symbols of the first `n` terms of a list, one after the other.
pub open spec fn terms_symbol(ts: Seq<TermModel>, n: nat) -> Seq<char>
    decreases ts, n,
{
    if n == 0 || n > ts.len() {
        Seq::empty()
    } else {
        terms_symbol(ts, (n - 1) as nat) + ts[n - 1].symbol()
    }
}

impl TermModel {
    /// The term flattened to one identifier: the name of a variable; the
    /// name of a function followed by the symbols of its arguments.
    pub open spec fn symbol(self) -> Seq<char>
        decreases self, 0nat,
    {
        match self {
            TermModel::Var(name) => name,
            TermModel::Func(name, args) => name + terms_symbol(args, args.len()),
            TermModel::Dummy => seq!['d', 'u', 'm', 'm', 'y'],
        }
    }
}

/// The symbols of the first `n` arguments of a predicate, each behind the
/// separator `_`.
pub open spec fn args_symbol(ts: Seq<TermModel>, n: nat) -> Seq<char>
    decreases n,
{
    if n == 0 || n > ts.len() {
        Seq::empty()
    } else {
        args_symbol(ts, (n - 1) as nat) + seq!['_'] + ts[n - 1].symbol()
    }
}

/// The propositional symbol of an atom: the name of the predicate, then
/// `_` and the symbol of an argument for each argument. Without arguments
/// it is the bare name.
pub open spec fn atom_symbol(name: Seq<char>, args: Seq<TermModel>) -> Seq<char> {
    name + args_symbol(args, args.len())
}

/// Appends the symbol of `term` to `out`.
pub fn push_term_symbol(term: &Term, out: &mut String)
    ensures
        final(out)@ == old(out)@ + term@.symbol(),
    decreases term,
{
    match term {
        Term::Var(v) => {
            out.append(v.name.as_str());
        },
        Term::Func(f) => {
            out.append(f.name.as_str());
            let ghost start = out@;
            let ghost args = terms_view(f.terms);
            let mut i: usize = 0;
            assert(out@ =~= start + terms_symbol(args, 0));
            while i < f.terms.len()
                invariant
                    *term == Term::Func(*f),
                    args == terms_view(f.terms),
                    i <= f.terms.len(),
                    out@ == start + terms_symbol(args, i as nat),
                decreases f.terms.len() - i,
            {
                proof {
                    lemma_func_arg_decreases(*term, i as int);
                }
                push_term_symbol(&f.terms[i], out);
                assert(out@ =~= start + terms_symbol(args, (i + 1) as nat));
                i += 1;
            }
            assert(out@ =~= old(out)@ + term@.symbol());
        },
        Term::Dummy => {
            proof {
                reveal_strlit("dummy");
            }
            out.append("dummy");
            assert(out@ =~= old(out)@ + term@.symbol());
        },
    }
}

impl<S> Pred<S> {
    /// The propositional symbol that stands for the atom.
    pub fn unique(&self) -> (symbol: String)
        ensures
            symbol@ == atom_symbol(self.name@, terms_view(self.terms)),
    {
        let mut out = self.name.clone();
        let ghost args = terms_view(self.terms);
        let mut i: usize = 0;
        assert(out@ =~= self.name@ + args_symbol(args, 0));
        while i < self.terms.len()
            invariant
                args == terms_view(self.terms),
                i <= self.terms.len(),
                out@ == self.name@ + args_symbol(args, i as nat),
            decreases self.terms.len() - i,
        {
            proof {
                reveal_strlit("_");
            }
            out.append("_");
            push_term_symbol(&self.terms[i], &mut out);
            assert(out@ =~= self.name@ + args_symbol(args, (i + 1) as nat)) by {
                assert("_"@ =~= seq!['_']);
            }
            i += 1;
        }
        out
    }
}

} // verus!
