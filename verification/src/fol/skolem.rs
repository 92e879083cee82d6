use vstd::prelude::*;
use vstd::string::*;
use crate::fol::ast::{
    terms_view, Exists, ForAll, Formula, FormulaModel, Pnf, Skolemized, Term, TermModel, Var,
};
use crate::fol::free::{names_of, names_of_terms, VarSet};
use crate::fol::fresh::{
    first_fresh_from, free_below, indexed_name, is_first_fresh_from, lemma_first_fresh_from,
    lemma_first_fresh_unique, next_fresh,
};
use crate::fol::subst::lemma_subst_shape;

verus! {

/// The base of the Skolem symbols.
pub open spec fn skolem_base() -> Seq<char> {
    seq!['s', 'k']
}

/// The Skolem symbol of number `k`: `sk` and the decimal numeral of `k`.
pub open spec fn skolem_name(k: nat) -> Seq<char> {
    indexed_name(skolem_base(), k)
}

/// The number of the next Skolem symbol, when symbols up to number `k`,
/// not including `k`, are used up and the names `taken` are to be avoided.
pub open spec fn next_skolem(taken: Set<Seq<char>>, k: nat) -> nat {
    first_fresh_from(skolem_base(), taken, k)
}

/// The Skolem term of number `k`: the Skolem symbol of that number applied
/// to the universal variables that enclose the quantifier, in order. Where
/// there is none it is a constant.
pub open spec fn skolem_term(k: nat, universals: Seq<Seq<char>>) -> TermModel {
    TermModel::Func(
        skolem_name(k),
        Seq::new(universals.len(), |i: int| TermModel::Var(universals[i])),
    )
}

impl FormulaModel {
    /// The formula without the existential quantifiers of its prefix, when
    /// `universals` are the universal variables met so far, the Skolem
    /// symbols below number `k` are used up, and the names `taken` are to
    /// be avoided. Each existential variable is replaced, outside in, by
    /// the Skolem term of the next number.
    pub open spec fn skolemized_from(
        self,
        universals: Seq<Seq<char>>,
        k: nat,
        taken: Set<Seq<char>>,
    ) -> FormulaModel
        decreases self.size(),
    {
        match self {
            FormulaModel::ForAll(x, a) => FormulaModel::ForAll(
                x,
                Box::new(a.skolemized_from(universals.push(x), k, taken)),
            ),
            FormulaModel::Exists(y, a) => {
                let number = next_skolem(taken, k);
                proof {
                    lemma_subst_shape(*a, y, skolem_term(number, universals));
                }
                a.subst(y, skolem_term(number, universals)).skolemized_from(
                    universals,
                    number + 1,
                    taken,
                )
            },
            _ => self,
        }
    }

    /// The Skolem form of a prenex formula: each existential quantifier of
    /// the prefix is dropped, and its variable replaced by a Skolem term
    /// over the universal variables in front of it. The Skolem symbols are
    /// the first of `sk0`, `sk1`, ... that are no names of the formula, in
    /// rising order from the outermost existential quantifier inwards. The
    /// result is satisfiable exactly if the formula is; it is not
    /// equivalent to it.
    pub open spec fn skolemized(self) -> FormulaModel {
        self.skolemized_from(Seq::empty(), 0, self.names())
    }
}

/// Shape of the Skolem form: an existential quantifier is left only where
/// the matrix holds one, so none at all for a prenex formula. The prefix,
/// the negation normal form and the absence of placeholders are kept.
pub proof fn lemma_skolemized_shape(
    f: FormulaModel,
    universals: Seq<Seq<char>>,
    k: nat,
    taken: Set<Seq<char>>,
)
    ensures
        f.is_pnf() ==> f.skolemized_from(universals, k, taken).exists_free(),
        f.skolemized_from(universals, k, taken).is_pnf() == f.is_pnf(),
        f.skolemized_from(universals, k, taken).is_nnf() == f.is_nnf(),
        f.skolemized_from(universals, k, taken).well_formed() == f.well_formed(),
        f.skolemized_from(universals, k, taken).prefix_exists() == 0,
    decreases f.size(),
{
    match f {
        FormulaModel::ForAll(x, a) => {
            lemma_skolemized_shape(*a, universals.push(x), k, taken);
        },
        FormulaModel::Exists(y, a) => {
            let number = next_skolem(taken, k);
            let t = skolem_term(number, universals);
            lemma_subst_shape(*a, y, t);
            lemma_skolemized_shape(a.subst(y, t), universals, number + 1, taken);
        },
        _ => {
            if f.is_pnf() {
                lemma_quantifier_free_exists_free(f);
            }
        },
    }
}

/// A formula without quantifiers holds no existential quantifier.
pub proof fn lemma_quantifier_free_exists_free(f: FormulaModel)
    requires
        f.quantifier_free(),
    ensures
        f.exists_free(),
    decreases f,
{
    match f {
        FormulaModel::Not(a) => {
            lemma_quantifier_free_exists_free(*a);
        },
        FormulaModel::And(a, b) => {
            lemma_quantifier_free_exists_free(*a);
            lemma_quantifier_free_exists_free(*b);
        },
        FormulaModel::Or(a, b) => {
            lemma_quantifier_free_exists_free(*a);
            lemma_quantifier_free_exists_free(*b);
        },
        FormulaModel::Implies(a, b) => {
            lemma_quantifier_free_exists_free(*a);
            lemma_quantifier_free_exists_free(*b);
        },
        FormulaModel::Iff(a, b) => {
            lemma_quantifier_free_exists_free(*a);
            lemma_quantifier_free_exists_free(*b);
        },
        _ => {},
    }
}

/// The names of a formula are finitely many.
pub proof fn lemma_names_finite(f: FormulaModel)
    ensures
        f.names().finite(),
    decreases f,
{
    match f {
        FormulaModel::Pred(_, args) => {
            lemma_terms_names_finite(args, args.len());
        },
        FormulaModel::Not(a) => {
            lemma_names_finite(*a);
        },
        FormulaModel::And(a, b) => {
            lemma_names_finite(*a);
            lemma_names_finite(*b);
        },
        FormulaModel::Or(a, b) => {
            lemma_names_finite(*a);
            lemma_names_finite(*b);
        },
        FormulaModel::Implies(a, b) => {
            lemma_names_finite(*a);
            lemma_names_finite(*b);
        },
        FormulaModel::Iff(a, b) => {
            lemma_names_finite(*a);
            lemma_names_finite(*b);
        },
        FormulaModel::ForAll(_, a) => {
            lemma_names_finite(*a);
        },
        FormulaModel::Exists(_, a) => {
            lemma_names_finite(*a);
        },
        FormulaModel::Dummy => {},
    }
}

/// The names of the first `n` terms of a list are finitely many.
pub proof fn lemma_terms_names_finite(ts: Seq<TermModel>, n: nat)
    ensures
        names_of_terms(ts, n).finite(),
    decreases ts, n,
{
    if n == 0 || n > ts.len() {
    } else {
        lemma_terms_names_finite(ts, (n - 1) as nat);
        lemma_term_names_finite(ts[n - 1]);
    }
}

/// The names of a term are finitely many.
pub proof fn lemma_term_names_finite(t: TermModel)
    ensures
        t.names().finite(),
    decreases t, 0nat,
{
    match t {
        TermModel::Func(_, args) => {
            lemma_terms_names_finite(args, args.len());
        },
        _ => {},
    }
}

/// No Skolem symbol of the Skolem form is a name of the formula: the
/// symbol of the next number is none of the names to be avoided.
pub proof fn lemma_skolem_name_fresh(f: FormulaModel, k: nat)
    ensures
        !f.names().contains(skolem_name(next_skolem(f.names(), k))),
        next_skolem(f.names(), k) >= k,
{
    lemma_names_finite(f);
    lemma_first_fresh_from(skolem_base(), f.names(), k);
}

/// Where the Skolem symbol of number `k` is not to be avoided, it is the
/// next one.
pub proof fn lemma_next_skolem_free(taken: Set<Seq<char>>, k: nat)
    requires
        !taken.contains(skolem_name(k)),
    ensures
        next_skolem(taken, k) == k,
{
    assert(is_first_fresh_from(skolem_base(), taken, k, k));
    lemma_first_fresh_unique(skolem_base(), taken, k, k, next_skolem(taken, k));
}

/// The source of Skolem symbols: it hands out `sk0`, `sk1`, ... in rising
/// order, and passes over the names that it was told to avoid.
pub struct SkolemState {
    counter: u128,
    taken: VarSet,
}

impl SkolemState {
    /// The number below which the Skolem symbols are used up.
    pub closed spec fn count(&self) -> nat {
        self.counter as nat
    }

    /// The names that are passed over.
    pub closed spec fn taken(&self) -> Set<Seq<char>> {
        self.taken@
    }

    /// The number of Skolem symbols handed out so far.
    pub closed spec fn issued(&self) -> nat {
        free_below(skolem_base(), self.taken@, self.counter as nat)
    }

    /// A source that passes over no name.
    pub fn new() -> (state: Self)
        ensures
            state.count() == 0,
            state.issued() == 0,
            state.taken() == Set::<Seq<char>>::empty(),
    {
        SkolemState { counter: 0, taken: VarSet::new() }
    }

    /// A source that passes over the names `taken`.
    pub fn avoiding(taken: VarSet) -> (state: Self)
        ensures
            state.count() == 0,
            state.issued() == 0,
            state.taken() == taken@,
    {
        SkolemState { counter: 0, taken }
    }

    /// The next Skolem symbol.
    pub fn fresh_skolem(&mut self) -> (name: String)
        requires
            old(self).issued() < usize::MAX,
        ensures
            name@ == skolem_name(next_skolem(old(self).taken(), old(self).count())),
            final(self).count() == next_skolem(old(self).taken(), old(self).count()) + 1,
            final(self).taken() == old(self).taken(),
            final(self).issued() == old(self).issued() + 1,
    {
        proof {
            reveal_strlit("sk");
            assert("sk"@ =~= skolem_base());
        }
        let r = next_fresh("sk", &self.taken, self.counter);
        self.counter = r.1 + 1;
        r.0
    }
}

/// The next Skolem term over the universal variables `uvars`.
pub fn fresh_skolem(uvars: &Vec<Var>, state: &mut SkolemState) -> (term: Term)
    requires
        old(state).issued() < usize::MAX,
    ensures
        term@ == skolem_term(
            next_skolem(old(state).taken(), old(state).count()),
            names_of(*uvars),
        ),
        final(state).count() == next_skolem(old(state).taken(), old(state).count()) + 1,
        final(state).taken() == old(state).taken(),
        final(state).issued() == old(state).issued() + 1,
{
    let fname = state.fresh_skolem();
    let mut params: Vec<Term> = Vec::new();
    let mut i: usize = 0;
    while i < uvars.len()
        invariant
            i <= uvars.len(),
            params.len() == i,
            forall|j: int| 0 <= j < i ==> params[j]@ == TermModel::Var(uvars[j]@),
        decreases uvars.len() - i,
    {
        params.push(uvars[i].to_term());
        i += 1;
    }
    let term = Term::func(fname.as_str(), params);
    assert(terms_view(params) =~= Seq::new(
        names_of(*uvars).len(),
        |i: int| TermModel::Var(names_of(*uvars)[i]),
    ));
    term
}

/// The Skolem form of `formula` under the universal variables `uvars`,
/// with Skolem symbols from `state`.
pub fn skolemize_under(formula: Formula<Pnf>, uvars: &mut Vec<Var>, state: &mut SkolemState) -> (out:
    Formula<Pnf>)
    requires
        old(state).issued() + formula@.prefix_exists() <= usize::MAX,
    ensures
        out@ == formula@.skolemized_from(
            names_of(*old(uvars)),
            old(state).count(),
            old(state).taken(),
        ),
        names_of(*final(uvars)) == names_of(*old(uvars)),
        final(state).taken() == old(state).taken(),
        final(state).issued() == old(state).issued() + formula@.prefix_exists(),
    decreases formula@.size(),
{
    match formula {
        Formula::ForAll(ForAll { var, formula, .. }) => {
            let ghost before = names_of(*uvars);
            uvars.push(var.clone());
            assert(names_of(*uvars) =~= before.push(var@));
            let inner = skolemize_under(*formula, uvars, state);
            let ghost mid = names_of(*uvars);
            uvars.pop();
            assert(names_of(*uvars) =~= mid.drop_last());
            assert(before.push(var@).drop_last() =~= before);
            Formula::for_all(var, inner)
        },
        Formula::Exists(Exists { var, formula, .. }) => {
            let skolem = fresh_skolem(uvars, state);
            proof {
                lemma_subst_shape(formula@, var@, skolem@);
            }
            let replaced = (*formula).substituted(&var, &skolem);
            skolemize_under(replaced, uvars, state)
        },
        other => other,
    }
}

/// The Skolem form of a prenex formula.
pub fn skolemize(formula: Formula<Pnf>) -> (out: Formula<Skolemized>)
    requires
        formula@.prefix_exists() <= usize::MAX,
    ensures
        out@ == formula@.skolemized(),
        formula@.is_pnf() ==> out@.exists_free() && out@.is_pnf(),
        formula@.is_nnf() ==> out@.is_nnf(),
        formula@.well_formed() ==> out@.well_formed(),
{
    proof {
        lemma_skolemized_shape(formula@, Seq::empty(), 0, formula@.names());
    }
    let mut uvars: Vec<Var> = Vec::new();
    let mut state = SkolemState::avoiding(formula.names());
    assert(names_of(uvars) =~= Seq::<Seq<char>>::empty());
    let out = skolemize_under(formula, &mut uvars, &mut state);
    out.cast()
}

impl Formula<Pnf> {
    /// The Skolem form of the formula.
    pub fn skolemize(self) -> (out: Formula<Skolemized>)
        requires
            self@.prefix_exists() <= usize::MAX,
        ensures
            out@ == self@.skolemized(),
            self@.is_pnf() ==> out@.exists_free() && out@.is_pnf(),
            self@.is_nnf() ==> out@.is_nnf(),
            self@.well_formed() ==> out@.well_formed(),
    {
        skolemize(self)
    }
}

/// The number of existential quantifiers among the leading quantifiers
/// of `formula`, unless it is beyond what a machine word holds.
pub fn count_prefix_exists<S>(formula: &Formula<S>) -> (count: Option<usize>)
    ensures
        match count {
            Some(n) => n == formula@.prefix_exists(),
            None => formula@.prefix_exists() > usize::MAX,
        },
    decreases formula,
{
    match formula {
        Formula::ForAll(forall) => count_prefix_exists(&*forall.formula),
        Formula::Exists(exists) => match count_prefix_exists(&*exists.formula) {
            Some(n) => n.checked_add(1),
            None => None,
        },
        _ => Some(0),
    }
}

/// The Skolem form of a prenex formula, unless the formula has more
/// existential quantifiers in its prefix than a machine word can count.
pub fn checked_skolemize(formula: Formula<Pnf>) -> (out: Option<Formula<Skolemized>>)
    ensures
        match out {
            Some(f) => formula@.prefix_exists() <= usize::MAX && f@ == formula@.skolemized(),
            None => formula@.prefix_exists() > usize::MAX,
        },
{
    match count_prefix_exists(&formula) {
        Some(_) => Some(skolemize(formula)),
        None => None,
    }
}

} // verus!
