use vstd::prelude::*;
use vstd::seq_lib::*;
use crate::fol::ast::{FormulaModel, TermModel, Var, Term, Formula, terms_view, lemma_terms_elem_decreases};

verus! {

/// The variables of the first `n` terms of a list, taken together.
pub open spec fn free_vars_of_terms(ts: Seq<TermModel>, n: nat) -> Set<Seq<char>>
    decreases ts, n,
{
    if n == 0 || n > ts.len() {
        Set::empty()
    } else {
        free_vars_of_terms(ts, (n - 1) as nat).union(ts[n - 1].free_vars())
    }
}

impl TermModel {
    /// The variables of a term: the variable itself, or those of the
    /// arguments of a function application.
    pub open spec fn free_vars(self) -> Set<Seq<char>>
        decreases self, 0nat,
    {
        match self {
            TermModel::Var(name) => set![name],
            TermModel::Func(_, args) => free_vars_of_terms(args, args.len()),
            TermModel::Dummy => Set::empty(),
        }
    }
}

impl FormulaModel {
    /// The free variables of a formula: those of its parts, without the
    /// bound variable at a quantifier.
    pub open spec fn free_vars(self) -> Set<Seq<char>>
        decreases self,
    {
        match self {
            FormulaModel::Pred(_, args) => free_vars_of_terms(args, args.len()),
            FormulaModel::Not(a) => a.free_vars(),
            FormulaModel::And(a, b) => a.free_vars().union(b.free_vars()),
            FormulaModel::Or(a, b) => a.free_vars().union(b.free_vars()),
            FormulaModel::Implies(a, b) => a.free_vars().union(b.free_vars()),
            FormulaModel::Iff(a, b) => a.free_vars().union(b.free_vars()),
            FormulaModel::ForAll(x, a) => a.free_vars().remove(x),
            FormulaModel::Exists(x, a) => a.free_vars().remove(x),
            FormulaModel::Dummy => Set::empty(),
        }
    }
}

/// A finite set of variables, kept as a list in which no name occurs twice.
#[derive(Debug)]
pub struct VarSet {
    pub vars: Vec<Var>,
}

impl VarSet {
    /// The names held, in the order of the list.
    pub open spec fn names(&self) -> Seq<Seq<char>> {
        Seq::new(self.vars.len() as nat, |i: int| self.vars[i]@)
    }

    /// No name occurs twice.
    pub open spec fn well_formed(&self) -> bool {
        self.names().no_duplicates()
    }
}

impl View for VarSet {
    type V = Set<Seq<char>>;

    open spec fn view(&self) -> Set<Seq<char>> {
        self.names().to_set()
    }
}

/// The names of a list of variables, in order.
pub open spec fn names_of(vars: Vec<Var>) -> Seq<Seq<char>> {
    Seq::new(vars.len() as nat, |i: int| vars[i]@)
}

/// A name that is pushed onto a list without duplicates keeps it so if the
/// list did not hold it.
pub proof fn lemma_push_no_duplicates(s: Seq<Seq<char>>, n: Seq<char>)
    requires
        s.no_duplicates(),
        !s.contains(n),
    ensures
        s.push(n).no_duplicates(),
{
    let t = s.push(n);
    assert forall|a: int, b: int| 0 <= a < t.len() && 0 <= b < t.len() && a != b implies t[a]
        != t[b] by {
        if a < s.len() && b < s.len() {
        } else if a < s.len() {
            assert(s.contains(s[a]));
        } else {
            assert(s.contains(s[b]));
        }
    }
}

impl VarSet {
    pub fn new() -> (s: Self)
        ensures
            s@ == Set::<Seq<char>>::empty(),
            s.well_formed(),
    {
        let s = VarSet { vars: Vec::new() };
        assert(s@ =~= Set::<Seq<char>>::empty());
        s
    }

    pub fn len(&self) -> (n: usize)
        ensures
            n == self.vars.len(),
            self@.finite(),
            self@.len() <= n,
            self.well_formed() ==> self@.len() == n,
    {
        proof {
            self.names().lemma_cardinality_of_set();
            if self.well_formed() {
                self.names().unique_seq_to_set();
            }
        }
        self.vars.len()
    }

    pub fn contains(&self, v: &Var) -> (b: bool)
        ensures
            b == self@.contains(v@),
    {
        let mut i: usize = 0;
        while i < self.vars.len()
            invariant
                i <= self.vars.len(),
                forall|j: int| 0 <= j < i ==> self.vars[j]@ != v@,
            decreases self.vars.len() - i,
        {
            if self.vars[i].same(v) {
                assert(self.names()[i as int] == v@);
                return true;
            }
            i += 1;
        }
        assert(!self.names().contains(v@)) by {
            if self.names().contains(v@) {
                let j = choose|j: int| 0 <= j < self.names().len() && self.names()[j] == v@;
                assert(self.vars[j]@ == v@);
            }
        }
        false
    }

    /// Adds a variable, unless one of that name is already held.
    pub fn insert(&mut self, v: Var)
        ensures
            final(self)@ == old(self)@.insert(v@),
            old(self).well_formed() ==> final(self).well_formed(),
    {
        if !self.contains(&v) {
            let ghost before = self.names();
            let ghost name = v@;
            self.vars.push(v);
            proof {
                assert(self.names() =~= before.push(name));
                before.lemma_push_to_set_commute(name);
                if before.no_duplicates() {
                    lemma_push_no_duplicates(before, name);
                }
            }
        } else {
            assert(self@ =~= old(self)@.insert(v@));
        }
    }

    /// Takes a variable out, if one of that name is held.
    pub fn remove(&mut self, v: &Var)
        ensures
            final(self)@ == old(self)@.remove(v@),
            old(self).well_formed() ==> final(self).well_formed(),
    {
        let mut kept: Vec<Var> = Vec::new();
        let mut i: usize = 0;
        assert(names_of(kept).to_set() =~= self.names().take(0).to_set().remove(v@));
        while i < self.vars.len()
            invariant
                i <= self.vars.len(),
                names_of(kept).to_set() == self.names().take(i as int).to_set().remove(v@),
                self.well_formed() ==> names_of(kept).no_duplicates(),
            decreases self.vars.len() - i,
        {
            let ghost before = names_of(kept);
            let ghost cur = self.names()[i as int];
            proof {
                self.names().lemma_take_succ_push(i as int);
                self.names().take(i as int).lemma_push_to_set_commute(cur);
            }
            if !self.vars[i].same(v) {
                let c = self.vars[i].clone();
                kept.push(c);
                proof {
                    assert(names_of(kept) =~= before.push(cur));
                    before.lemma_push_to_set_commute(cur);
                    assert(names_of(kept).to_set() =~= self.names().take(i + 1).to_set().remove(
                        v@,
                    ));
                    if self.well_formed() {
                        assert(!before.contains(cur)) by {
                            if before.contains(cur) {
                                assert(before.to_set().contains(cur));
                                assert(self.names().take(i as int).contains(cur));
                                let j = choose|j: int|
                                    0 <= j < i && self.names().take(i as int)[j] == cur;
                                assert(self.names()[j] == self.names()[i as int]);
                            }
                        }
                        lemma_push_no_duplicates(before, cur);
                    }
                }
            } else {
                assert(names_of(kept).to_set() =~= self.names().take(i + 1).to_set().remove(v@));
            }
            i += 1;
        }
        proof {
            assert(self.names().take(self.vars.len() as int) =~= self.names());
        }
        self.vars = kept;
        assert(self.names() =~= names_of(kept));
    }

    /// Adds every variable of `other`.
    pub fn extend(&mut self, other: &VarSet)
        ensures
            final(self)@ == old(self)@.union(other@),
            old(self).well_formed() ==> final(self).well_formed(),
    {
        let mut i: usize = 0;
        assert(self@ =~= old(self)@.union(other.names().take(0).to_set()));
        while i < other.vars.len()
            invariant
                i <= other.vars.len(),
                self@ == old(self)@.union(other.names().take(i as int).to_set()),
                old(self).well_formed() ==> self.well_formed(),
            decreases other.vars.len() - i,
        {
            let c = other.vars[i].clone();
            self.insert(c);
            proof {
                other.names().lemma_take_succ_push(i as int);
                other.names().take(i as int).lemma_push_to_set_commute(other.names()[i as int]);
                assert(self@ =~= old(self)@.union(other.names().take(i + 1).to_set()));
            }
            i += 1;
        }
        proof {
            assert(other.names().take(other.vars.len() as int) =~= other.names());
        }
    }
}

/// Adds the variables of every term of a list to `vars`.
pub fn collect_terms_free_vars(ts: &Vec<Term>, vars: &mut VarSet)
    ensures
        final(vars)@ == old(vars)@.union(
            free_vars_of_terms(terms_view(*ts), terms_view(*ts).len()),
        ),
        old(vars).well_formed() ==> final(vars).well_formed(),
    decreases ts, 1nat,
{
    let mut i: usize = 0;
    assert(vars@ =~= old(vars)@.union(free_vars_of_terms(terms_view(*ts), 0)));
    while i < ts.len()
        invariant
            i <= ts.len(),
            vars@ == old(vars)@.union(free_vars_of_terms(terms_view(*ts), i as nat)),
            old(vars).well_formed() ==> vars.well_formed(),
        decreases ts.len() - i,
    {
        proof {
            lemma_terms_elem_decreases(*ts, i as int);
        }
        ts[i].collect_free_vars(vars);
        assert(vars@ =~= old(vars)@.union(free_vars_of_terms(terms_view(*ts), (i + 1) as nat)));
        i += 1;
    }
}

impl Term {
    /// The variables of the term, as a set.
    pub fn free_vars(&self) -> (vars: VarSet)
        ensures
            vars@ == self@.free_vars(),
            vars.well_formed(),
    {
        let mut vars = VarSet::new();
        self.collect_free_vars(&mut vars);
        assert(vars@ =~= self@.free_vars());
        vars
    }

    /// Adds the variables of the term to `vars`.
    pub fn collect_free_vars(&self, vars: &mut VarSet)
        ensures
            final(vars)@ == old(vars)@.union(self@.free_vars()),
            old(vars).well_formed() ==> final(vars).well_formed(),
        decreases self, 0nat,
    {
        match self {
            Term::Var(var) => {
                vars.insert(var.clone());
                assert(vars@ =~= old(vars)@.union(self@.free_vars()));
            },
            Term::Func(func) => {
                proof {
                    assert(decreases_to!(*self => self->Func_0));
                    assert(decreases_to!(*func => func.terms));
                }
                collect_terms_free_vars(&func.terms, vars);
            },
            Term::Dummy => {
                assert(vars@ =~= old(vars)@.union(self@.free_vars()));
            },
        }
    }
}

impl<S> Formula<S> {
    /// The free variables of the formula, as a set.
    pub fn free_vars(&self) -> (vars: VarSet)
        ensures
            vars@ == self@.free_vars(),
            vars.well_formed(),
        decreases self, 1nat,
    {
        let mut vars = VarSet::new();
        self.collect_free_vars(&mut vars);
        assert(vars@ =~= self@.free_vars());
        vars
    }

    /// Adds the free variables of the formula to `vars`.
    pub fn collect_free_vars(&self, vars: &mut VarSet)
        ensures
            final(vars)@ == old(vars)@.union(self@.free_vars()),
            old(vars).well_formed() ==> final(vars).well_formed(),
        decreases self, 0nat,
    {
        match self {
            Formula::Pred(pred) => {
                collect_terms_free_vars(&pred.terms, vars);
            },
            Formula::Not(not) => {
                (*not.formula).collect_free_vars(vars);
            },
            Formula::And(and) => {
                (*and.formula1).collect_free_vars(vars);
                (*and.formula2).collect_free_vars(vars);
                assert(vars@ =~= old(vars)@.union(self@.free_vars()));
            },
            Formula::Or(or) => {
                (*or.formula1).collect_free_vars(vars);
                (*or.formula2).collect_free_vars(vars);
                assert(vars@ =~= old(vars)@.union(self@.free_vars()));
            },
            Formula::Implies(imp) => {
                (*imp.formula1).collect_free_vars(vars);
                (*imp.formula2).collect_free_vars(vars);
                assert(vars@ =~= old(vars)@.union(self@.free_vars()));
            },
            Formula::Iff(iff) => {
                (*iff.formula1).collect_free_vars(vars);
                (*iff.formula2).collect_free_vars(vars);
                assert(vars@ =~= old(vars)@.union(self@.free_vars()));
            },
            Formula::ForAll(forall) => {
                let mut inner = (*forall.formula).free_vars();
                inner.remove(&forall.var);
                vars.extend(&inner);
            },
            Formula::Exists(exists) => {
                let mut inner = (*exists.formula).free_vars();
                inner.remove(&exists.var);
                vars.extend(&inner);
            },
            Formula::Dummy => {
                assert(vars@ =~= old(vars)@.union(self@.free_vars()));
            },
        }
    }
}

/// The variables of a term, as a set.
pub fn term_free_vars(term: &Term) -> (vars: VarSet)
    ensures
        vars@ == term@.free_vars(),
        vars.well_formed(),
{
    term.free_vars()
}

/// The free variables of a formula, as a set.
pub fn formula_free_vars<T>(formula: &Formula<T>) -> (vars: VarSet)
    ensures
        vars@ == formula@.free_vars(),
        vars.well_formed(),
{
    formula.free_vars()
}

/// The names that occur in the first `n` terms of a list.
pub open spec fn names_of_terms(ts: Seq<TermModel>, n: nat) -> Set<Seq<char>>
    decreases ts, n,
{
    if n == 0 || n > ts.len() {
        Set::empty()
    } else {
        names_of_terms(ts, (n - 1) as nat).union(ts[n - 1].names())
    }
}

impl TermModel {
    /// The names that occur in the term: those of its variables and
    /// functions.
    pub open spec fn names(self) -> Set<Seq<char>>
        decreases self, 0nat,
    {
        match self {
            TermModel::Var(name) => set![name],
            TermModel::Func(name, args) => names_of_terms(args, args.len()).insert(name),
            TermModel::Dummy => Set::empty(),
        }
    }
}

impl FormulaModel {
    /// The names that occur in the formula: those of its predicates and
    /// functions and of its variables, free and bound.
    pub open spec fn names(self) -> Set<Seq<char>>
        decreases self,
    {
        match self {
            FormulaModel::Pred(name, args) => names_of_terms(args, args.len()).insert(name),
            FormulaModel::Not(a) => a.names(),
            FormulaModel::And(a, b) => a.names().union(b.names()),
            FormulaModel::Or(a, b) => a.names().union(b.names()),
            FormulaModel::Implies(a, b) => a.names().union(b.names()),
            FormulaModel::Iff(a, b) => a.names().union(b.names()),
            FormulaModel::ForAll(x, a) => a.names().insert(x),
            FormulaModel::Exists(x, a) => a.names().insert(x),
            FormulaModel::Dummy => Set::empty(),
        }
    }
}

/// Adds the names of every term of a list to `names`.
pub fn collect_terms_names(ts: &Vec<Term>, names: &mut VarSet)
    ensures
        final(names)@ == old(names)@.union(names_of_terms(terms_view(*ts), terms_view(*ts).len())),
        old(names).well_formed() ==> final(names).well_formed(),
    decreases ts, 1nat,
{
    let mut i: usize = 0;
    assert(names@ =~= old(names)@.union(names_of_terms(terms_view(*ts), 0)));
    while i < ts.len()
        invariant
            i <= ts.len(),
            names@ == old(names)@.union(names_of_terms(terms_view(*ts), i as nat)),
            old(names).well_formed() ==> names.well_formed(),
        decreases ts.len() - i,
    {
        proof {
            lemma_terms_elem_decreases(*ts, i as int);
        }
        ts[i].collect_names(names);
        assert(names@ =~= old(names)@.union(names_of_terms(terms_view(*ts), (i + 1) as nat)));
        i += 1;
    }
}

impl Term {
    /// Adds the names that occur in the term to `names`.
    pub fn collect_names(&self, names: &mut VarSet)
        ensures
            final(names)@ == old(names)@.union(self@.names()),
            old(names).well_formed() ==> final(names).well_formed(),
        decreases self, 0nat,
    {
        match self {
            Term::Var(var) => {
                names.insert(var.clone());
                assert(names@ =~= old(names)@.union(self@.names()));
            },
            Term::Func(func) => {
                proof {
                    assert(decreases_to!(*self => self->Func_0));
                    assert(decreases_to!(*func => func.terms));
                }
                collect_terms_names(&func.terms, names);
                names.insert(Var::from_string(func.name.clone()));
                assert(names@ =~= old(names)@.union(self@.names()));
            },
            Term::Dummy => {
                assert(names@ =~= old(names)@.union(self@.names()));
            },
        }
    }
}

impl<S> Formula<S> {
    /// Adds the names that occur in the formula to `names`.
    pub fn collect_names(&self, names: &mut VarSet)
        ensures
            final(names)@ == old(names)@.union(self@.names()),
            old(names).well_formed() ==> final(names).well_formed(),
        decreases self,
    {
        match self {
            Formula::Pred(pred) => {
                collect_terms_names(&pred.terms, names);
                names.insert(Var::from_string(pred.name.clone()));
                assert(names@ =~= old(names)@.union(self@.names()));
            },
            Formula::Not(not) => {
                (*not.formula).collect_names(names);
            },
            Formula::And(and) => {
                (*and.formula1).collect_names(names);
                (*and.formula2).collect_names(names);
                assert(names@ =~= old(names)@.union(self@.names()));
            },
            Formula::Or(or) => {
                (*or.formula1).collect_names(names);
                (*or.formula2).collect_names(names);
                assert(names@ =~= old(names)@.union(self@.names()));
            },
            Formula::Implies(imp) => {
                (*imp.formula1).collect_names(names);
                (*imp.formula2).collect_names(names);
                assert(names@ =~= old(names)@.union(self@.names()));
            },
            Formula::Iff(iff) => {
                (*iff.formula1).collect_names(names);
                (*iff.formula2).collect_names(names);
                assert(names@ =~= old(names)@.union(self@.names()));
            },
            Formula::ForAll(forall) => {
                (*forall.formula).collect_names(names);
                names.insert(forall.var.clone());
                assert(names@ =~= old(names)@.union(self@.names()));
            },
            Formula::Exists(exists) => {
                (*exists.formula).collect_names(names);
                names.insert(exists.var.clone());
                assert(names@ =~= old(names)@.union(self@.names()));
            },
            Formula::Dummy => {
                assert(names@ =~= old(names)@.union(self@.names()));
            },
        }
    }

    /// The names that occur in the formula, as a set.
    pub fn names(&self) -> (names: VarSet)
        ensures
            names@ == self@.names(),
            names.well_formed(),
    {
        let mut names = VarSet::new();
        self.collect_names(&mut names);
        assert(names@ =~= self@.names());
        names
    }
}

} // verus!
