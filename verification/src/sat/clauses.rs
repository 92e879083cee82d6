use vstd::prelude::*;
use vstd::string::*;
use crate::fol::ast::{
    atom_symbol, terms_view, And, Cnf, Formula, FormulaModel, Not, Or, Raw, TermModel,
};
use crate::fol::nnf::{lemma_nnf_quantifier_free, lemma_nnf_shape};
use crate::fol::pnf::lemma_pnf_quantifier_free;
use crate::fol::cnf::lemma_cnf_shape;
use crate::sat::dimacs::{dimacs_clauses, texts_view, DimacsError, DimacsErrorModel};

verus! {

/// Mathematical model of a literal: a propositional symbol with a sign.
pub enum LiteralModel {
    Pos(Seq<char>),
    Neg(Seq<char>),
}

impl LiteralModel {
    /// The propositional symbol of the literal.
    pub open spec fn symbol(self) -> Seq<char> {
        match self {
            LiteralModel::Pos(s) => s,
            LiteralModel::Neg(s) => s,
        }
    }

    /// The literal of the same symbol and the other sign.
    pub open spec fn negated(self) -> LiteralModel {
        match self {
            LiteralModel::Pos(s) => LiteralModel::Neg(s),
            LiteralModel::Neg(s) => LiteralModel::Pos(s),
        }
    }
}

/// The literals other than `l`.
pub open spec fn is_other_than(l: LiteralModel) -> spec_fn(LiteralModel) -> bool {
    |x: LiteralModel| x != l
}

/// The literals that `c` does not hold.
pub open spec fn is_not_in(c: Seq<LiteralModel>) -> spec_fn(LiteralModel) -> bool {
    |x: LiteralModel| !c.contains(x)
}

/// The literals whose negation `c` does not hold.
pub open spec fn has_no_complement_in(c: Seq<LiteralModel>) -> spec_fn(LiteralModel) -> bool {
    |x: LiteralModel| !c.contains(x.negated())
}

/// The clause with `l` added at the end, unless it holds `l` already.
pub open spec fn with_literal(c: Seq<LiteralModel>, l: LiteralModel) -> Seq<LiteralModel> {
    if c.contains(l) {
        c
    } else {
        c.push(l)
    }
}

/// The clause without `l`.
pub open spec fn without_literal(c: Seq<LiteralModel>, l: LiteralModel) -> Seq<LiteralModel> {
    c.filter(is_other_than(l))
}

/// The clause without its complementary pairs: a literal stays if the
/// clause does not hold its negation.
pub open spec fn without_complements(c: Seq<LiteralModel>) -> Seq<LiteralModel> {
    c.filter(has_no_complement_in(c))
}

/// The union of two clauses: the literals of `a`, then those of `b` that
/// `a` does not hold.
pub open spec fn union_of(a: Seq<LiteralModel>, b: Seq<LiteralModel>) -> Seq<LiteralModel> {
    a + b.filter(is_not_in(a))
}

/// What is kept of a list without duplicates has no duplicates.
pub proof fn lemma_filter_no_duplicates<A>(s: Seq<A>, p: spec_fn(A) -> bool)
    requires
        s.no_duplicates(),
    ensures
        s.filter(p).no_duplicates(),
    decreases s.len(),
{
    if s.len() == 0 {
        assert(s.filter(p) =~= Seq::<A>::empty()) by {
            reveal(Seq::filter);
        }
    } else {
        let rest = s.drop_last();
        let last = s.last();
        assert(s =~= rest.push(last));
        lemma_filter_no_duplicates(rest, p);
        rest.lemma_filter_push(last, p);
        if p(last) {
            if rest.filter(p).contains(last) {
                rest.lemma_filter_contains_rev(p, last);
                let j = choose|j: int| 0 <= j < rest.len() && rest[j] == last;
                assert(s[j] == s[s.len() - 1]);
            }
            let f = rest.filter(p);
            assert forall|a: int, b: int|
                0 <= a < f.push(last).len() && 0 <= b < f.push(last).len() && a != b implies f.push(
                last,
            )[a] != f.push(last)[b] by {
                if a < f.len() && b < f.len() {
                } else if a < f.len() {
                    assert(f.contains(f[a]));
                } else {
                    assert(f.contains(f[b]));
                }
            }
        }
    }
}

/// What is kept of a list holds `x` exactly if the list holds `x` and `x`
/// is to be kept.
pub proof fn lemma_filter_contains_iff<A>(s: Seq<A>, p: spec_fn(A) -> bool, x: A)
    ensures
        s.filter(p).contains(x) <==> (s.contains(x) && p(x)),
{
    if s.filter(p).contains(x) {
        s.lemma_filter_contains_rev(p, x);
        let j = choose|j: int| 0 <= j < s.filter(p).len() && s.filter(p)[j] == x;
        s.lemma_filter_pred(p, j);
    }
    if s.contains(x) && p(x) {
        let j = choose|j: int| 0 <= j < s.len() && s[j] == x;
        s.lemma_filter_contains(p, j);
    }
}

/// A literal of the set-of-sets representation.
#[derive(Debug, Eq, PartialEq, Hash)]
pub enum Literal {
    Pos(String),
    Neg(String),
}

impl View for Literal {
    type V = LiteralModel;

    open spec fn view(&self) -> LiteralModel {
        match self {
            Literal::Pos(s) => LiteralModel::Pos(s@),
            Literal::Neg(s) => LiteralModel::Neg(s@),
        }
    }
}

impl Clone for Literal {
    fn clone(&self) -> (res: Self)
        ensures
            res@ == self@,
    {
        match self {
            Literal::Pos(s) => Literal::Pos(s.clone()),
            Literal::Neg(s) => Literal::Neg(s.clone()),
        }
    }
}

impl Literal {
    pub fn pos(s: String) -> (l: Self)
        ensures
            l@ == LiteralModel::Pos(s@),
    {
        Literal::Pos(s)
    }

    pub fn neg(s: String) -> (l: Self)
        ensures
            l@ == LiteralModel::Neg(s@),
    {
        Literal::Neg(s)
    }

    pub fn var_name(&self) -> (name: &str)
        ensures
            name@ == self@.symbol(),
    {
        match self {
            Literal::Pos(s) => s.as_str(),
            Literal::Neg(s) => s.as_str(),
        }
    }

    pub fn is_negated(&self) -> (b: bool)
        ensures
            b == (self@ is Neg),
    {
        match self {
            Literal::Pos(_) => false,
            Literal::Neg(_) => true,
        }
    }

    pub fn negate(&self) -> (l: Self)
        ensures
            l@ == self@.negated(),
    {
        match self {
            Literal::Pos(s) => Literal::Neg(s.clone()),
            Literal::Neg(s) => Literal::Pos(s.clone()),
        }
    }

    /// Whether two literals have the same symbol and the same sign.
    pub fn same(&self, other: &Literal) -> (b: bool)
        ensures
            b == (self@ == other@),
    {
        match self {
            Literal::Pos(s) => match other {
                Literal::Pos(t) => *s == *t,
                Literal::Neg(_) => false,
            },
            Literal::Neg(s) => match other {
                Literal::Pos(_) => false,
                Literal::Neg(t) => *s == *t,
            },
        }
    }
}

/// The models of the literals of a list, in order.
pub open spec fn literals_view(v: Vec<Literal>) -> Seq<LiteralModel> {
    Seq::new(v.len() as nat, |i: int| v[i]@)
}

/// A clause: a set of literals, read as their disjunction. It is kept as a
/// list, in the order in which the literals came.
#[derive(Debug)]
pub struct Clause(pub Vec<Literal>);

impl View for Clause {
    type V = Seq<LiteralModel>;

    open spec fn view(&self) -> Seq<LiteralModel> {
        literals_view(self.0)
    }
}

impl Clone for Clause {
    fn clone(&self) -> (res: Self)
        ensures
            res@ == self@,
    {
        let mut out: Vec<Literal> = Vec::new();
        let mut i: usize = 0;
        while i < self.0.len()
            invariant
                i <= self.0.len(),
                out.len() == i,
                forall|j: int| 0 <= j < i ==> out[j]@ == self.0[j]@,
            decreases self.0.len() - i,
        {
            out.push(self.0[i].clone());
            i += 1;
        }
        assert(literals_view(out) =~= self@);
        Clause(out)
    }
}

impl Clause {
    /// No literal occurs twice.
    pub open spec fn well_formed(&self) -> bool {
        self@.no_duplicates()
    }

    pub fn new() -> (c: Self)
        ensures
            c@ == Seq::<LiteralModel>::empty(),
            c.well_formed(),
    {
        let c = Clause(Vec::new());
        assert(c@ =~= Seq::<LiteralModel>::empty());
        c
    }

    pub fn len(&self) -> (n: usize)
        ensures
            n == self@.len(),
    {
        self.0.len()
    }

    pub fn is_empty(&self) -> (b: bool)
        ensures
            b == (self@.len() == 0),
    {
        self.0.len() == 0
    }

    pub fn contains(&self, l: &Literal) -> (b: bool)
        ensures
            b == self@.contains(l@),
    {
        let mut i: usize = 0;
        while i < self.0.len()
            invariant
                i <= self.0.len(),
                forall|j: int| 0 <= j < i ==> self@[j] != l@,
            decreases self.0.len() - i,
        {
            if self.0[i].same(l) {
                assert(self@[i as int] == l@);
                return true;
            }
            i += 1;
        }
        false
    }

    /// Adds a literal, unless the clause holds it already.
    pub fn insert(&mut self, l: Literal)
        ensures
            final(self)@ == with_literal(old(self)@, l@),
            old(self).well_formed() ==> final(self).well_formed(),
    {
        if !self.contains(&l) {
            let ghost before = self@;
            let ghost lit = l@;
            self.0.push(l);
            proof {
                assert(self@ =~= before.push(lit));
                if before.no_duplicates() {
                    assert forall|a: int, b: int|
                        0 <= a < self@.len() && 0 <= b < self@.len() && a != b implies self@[a]
                        != self@[b] by {
                        if a < before.len() && b < before.len() {
                        } else if a < before.len() {
                            assert(before.contains(before[a]));
                        } else {
                            assert(before.contains(before[b]));
                        }
                    }
                }
            }
        }
    }

    /// Takes a literal out of the clause.
    pub fn remove(&mut self, l: &Literal)
        ensures
            final(self)@ == without_literal(old(self)@, l@),
            old(self).well_formed() ==> final(self).well_formed(),
    {
        let ghost p = is_other_than(l@);
        let mut kept: Vec<Literal> = Vec::new();
        let mut i: usize = 0;
        assert(self@.take(0).filter(p) =~= Seq::<LiteralModel>::empty()) by {
            reveal(Seq::filter);
        }
        while i < self.0.len()
            invariant
                i <= self.0.len(),
                p == is_other_than(l@),
                literals_view(kept) == self@.take(i as int).filter(p),
            decreases self.0.len() - i,
        {
            let ghost before = literals_view(kept);
            proof {
                self@.lemma_take_succ_push(i as int);
                self@.take(i as int).lemma_filter_push(self@[i as int], p);
            }
            if !self.0[i].same(l) {
                kept.push(self.0[i].clone());
                assert(literals_view(kept) =~= before.push(self@[i as int]));
            }
            i += 1;
        }
        proof {
            assert(self@.take(self.0.len() as int) =~= self@);
            if self.well_formed() {
                lemma_filter_no_duplicates(self@, p);
            }
        }
        self.0 = kept;
    }

    /// Drops every complementary pair: a literal leaves the clause if the
    /// clause holds its negation too.
    pub fn remove_trivals(&mut self)
        ensures
            final(self)@ == without_complements(old(self)@),
            old(self).well_formed() ==> final(self).well_formed(),
    {
        let ghost p = has_no_complement_in(self@);
        let mut kept: Vec<Literal> = Vec::new();
        let mut i: usize = 0;
        assert(self@.take(0).filter(p) =~= Seq::<LiteralModel>::empty()) by {
            reveal(Seq::filter);
        }
        while i < self.0.len()
            invariant
                i <= self.0.len(),
                p == has_no_complement_in(self@),
                literals_view(kept) == self@.take(i as int).filter(p),
            decreases self.0.len() - i,
        {
            let ghost before = literals_view(kept);
            proof {
                self@.lemma_take_succ_push(i as int);
                self@.take(i as int).lemma_filter_push(self@[i as int], p);
            }
            let opposite = self.0[i].negate();
            if !self.contains(&opposite) {
                kept.push(self.0[i].clone());
                assert(literals_view(kept) =~= before.push(self@[i as int]));
            }
            i += 1;
        }
        proof {
            assert(self@.take(self.0.len() as int) =~= self@);
            if self.well_formed() {
                lemma_filter_no_duplicates(self@, p);
            }
        }
        self.0 = kept;
    }

    /// The union of two clauses.
    pub fn union(&self, other: &Clause) -> (out: Clause)
        ensures
            out@ == union_of(self@, other@),
            self.well_formed() && other.well_formed() ==> out.well_formed(),
    {
        let ghost p = is_not_in(self@);
        let mut out = self.clone();
        let mut i: usize = 0;
        assert(other@.take(0).filter(p) =~= Seq::<LiteralModel>::empty()) by {
            reveal(Seq::filter);
        }
        assert(out@ =~= self@ + other@.take(0).filter(p));
        while i < other.0.len()
            invariant
                i <= other.0.len(),
                p == is_not_in(self@),
                out@ == self@ + other@.take(i as int).filter(p),
            decreases other.0.len() - i,
        {
            let ghost before = out@;
            proof {
                other@.lemma_take_succ_push(i as int);
                other@.take(i as int).lemma_filter_push(other@[i as int], p);
            }
            if !self.contains(&other.0[i]) {
                out.0.push(other.0[i].clone());
                assert(out@ =~= before.push(other@[i as int]));
            }
            assert(out@ =~= self@ + other@.take(i + 1).filter(p));
            i += 1;
        }
        proof {
            assert(other@.take(other.0.len() as int) =~= other@);
            if self.well_formed() && other.well_formed() {
                lemma_union_no_duplicates(self@, other@);
            }
        }
        out
    }
}

/// The union of two clauses without duplicates has none.
pub proof fn lemma_union_no_duplicates(a: Seq<LiteralModel>, b: Seq<LiteralModel>)
    requires
        a.no_duplicates(),
        b.no_duplicates(),
    ensures
        union_of(a, b).no_duplicates(),
{
    let p = is_not_in(a);
    let f = b.filter(p);
    lemma_filter_no_duplicates(b, p);
    let u = a + f;
    assert forall|i: int, j: int| 0 <= i < u.len() && 0 <= j < u.len() && i != j implies u[i]
        != u[j] by {
        if i < a.len() && j < a.len() {
        } else if i >= a.len() && j >= a.len() {
            assert(f[i - a.len()] != f[j - a.len()]);
        } else if i < a.len() {
            b.lemma_filter_pred(p, j - a.len());
            assert(a.contains(a[i]));
        } else {
            b.lemma_filter_pred(p, i - a.len());
            assert(a.contains(a[j]));
        }
    }
}

/// The literals of a disjunction of literals, added to `acc` from left to
/// right. A predicate gives a positive literal, a negated predicate a
/// negative one; the symbol is that of the atom.
pub open spec fn collect_literals(f: FormulaModel, acc: Seq<LiteralModel>) -> Seq<LiteralModel>
    decreases f,
{
    match f {
        FormulaModel::Or(a, b) => collect_literals(*b, collect_literals(*a, acc)),
        FormulaModel::Pred(name, args) => with_literal(
            acc,
            LiteralModel::Pos(atom_symbol(name, args)),
        ),
        FormulaModel::Not(a) => match *a {
            FormulaModel::Pred(name, args) => with_literal(
                acc,
                LiteralModel::Neg(atom_symbol(name, args)),
            ),
            _ => acc,
        },
        _ => acc,
    }
}

/// The clauses of a conjunction of disjunctions, added to `acc` from left
/// to right: each part that is no conjunction gives one clause.
pub open spec fn collect_clauses_of(f: FormulaModel, acc: Seq<Seq<LiteralModel>>) -> Seq<
    Seq<LiteralModel>,
>
    decreases f,
{
    match f {
        FormulaModel::And(a, b) => collect_clauses_of(*b, collect_clauses_of(*a, acc)),
        _ => acc.push(collect_literals(f, Seq::empty())),
    }
}

impl FormulaModel {
    /// The clause set of a formula in conjunctive normal form.
    pub open spec fn clauses(self) -> Seq<Seq<LiteralModel>> {
        collect_clauses_of(self, Seq::empty())
    }

    /// The formula put through every stage in turn: negation normal form,
    /// prenex normal form, Skolem form, without the prefix, conjunctive
    /// normal form.
    pub open spec fn clausal_form(self) -> FormulaModel {
        self.nnf().pnf().skolemized().matrix().cnf()
    }
}

/// The formula of a literal: an atom without arguments, or its negation.
pub open spec fn literal_formula(l: LiteralModel) -> FormulaModel {
    match l {
        LiteralModel::Pos(s) => FormulaModel::Pred(s, Seq::empty()),
        LiteralModel::Neg(s) => FormulaModel::Not(
            Box::new(FormulaModel::Pred(s, Seq::empty())),
        ),
    }
}

/// The disjunction of the first `n` literals of a clause, nested to the left.
pub open spec fn clause_formula(c: Seq<LiteralModel>, n: nat) -> FormulaModel
    decreases n,
{
    if n <= 1 {
        literal_formula(c[0])
    } else {
        FormulaModel::Or(
            Box::new(clause_formula(c, (n - 1) as nat)),
            Box::new(literal_formula(c[n - 1])),
        )
    }
}

/// The conjunction of the first `n` clauses of a clause set, nested to the left.
pub open spec fn clauses_formula(cs: Seq<Seq<LiteralModel>>, n: nat) -> FormulaModel
    decreases n,
{
    if n <= 1 {
        clause_formula(cs[0], cs[0].len())
    } else {
        FormulaModel::And(
            Box::new(clauses_formula(cs, (n - 1) as nat)),
            Box::new(clause_formula(cs[n - 1], cs[n - 1].len())),
        )
    }
}

/// The formula of a clause set: the conjunction of the disjunctions of its
/// literals.
pub open spec fn formula_of(cs: Seq<Seq<LiteralModel>>) -> FormulaModel {
    clauses_formula(cs, cs.len())
}

/// A clause set that has a formula: it holds a clause, and no clause is empty.
pub open spec fn has_formula(cs: Seq<Seq<LiteralModel>>) -> bool {
    &&& cs.len() > 0
    &&& forall|i: int| 0 <= i < cs.len() ==> (#[trigger] cs[i]).len() > 0
}

/// No clause of the clause set holds a literal twice.
pub open spec fn clauses_well_formed(cs: Seq<Seq<LiteralModel>>) -> bool {
    forall|i: int| 0 <= i < cs.len() ==> (#[trigger] cs[i]).no_duplicates()
}

/// The clause set whose unsatisfiability shows that the formula of `cs` is
/// valid: that of the negated formula, put through every stage.
pub open spec fn refutation_clauses(cs: Seq<Seq<LiteralModel>>) -> Seq<Seq<LiteralModel>> {
    FormulaModel::Not(Box::new(formula_of(cs))).clausal_form().clauses()
}

/// Shape of the formula of the first `n` literals of a clause.
pub proof fn lemma_clause_formula_shape(c: Seq<LiteralModel>, n: nat)
    requires
        1 <= n <= c.len(),
    ensures
        clause_formula(c, n).is_clause(),
        clause_formula(c, n).well_formed(),
        clause_formula(c, n).quantifier_free(),
        !(clause_formula(c, n) is And),
    decreases n,
{
    reveal_with_fuel(FormulaModel::well_formed, 3);
    reveal_with_fuel(FormulaModel::quantifier_free, 3);
    reveal_with_fuel(FormulaModel::is_clause, 2);
    if n > 1 {
        lemma_clause_formula_shape(c, (n - 1) as nat);
    }
}

/// Shape of the formula of the first `n` clauses of a clause set.
pub proof fn lemma_clauses_formula_shape(cs: Seq<Seq<LiteralModel>>, n: nat)
    requires
        has_formula(cs),
        1 <= n <= cs.len(),
    ensures
        clauses_formula(cs, n).is_cnf(),
        clauses_formula(cs, n).well_formed(),
        clauses_formula(cs, n).quantifier_free(),
    decreases n,
{
    reveal_with_fuel(FormulaModel::is_cnf, 2);
    lemma_clause_formula_shape(cs[n - 1], cs[n - 1].len());
    if n > 1 {
        lemma_clauses_formula_shape(cs, (n - 1) as nat);
    } else {
        lemma_clause_formula_shape(cs[0], cs[0].len());
    }
}

/// The literals of the formula of a clause are those of the clause, in order.
pub proof fn lemma_clause_roundtrip(c: Seq<LiteralModel>, n: nat)
    requires
        1 <= n <= c.len(),
        c.no_duplicates(),
    ensures
        collect_literals(clause_formula(c, n), Seq::empty()) == c.take(n as int),
    decreases n,
{
    let l = c[n - 1];
    assert(atom_symbol(l.symbol(), Seq::<TermModel>::empty()) =~= l.symbol());
    if n > 1 {
        lemma_clause_roundtrip(c, (n - 1) as nat);
        let before = c.take(n - 1);
        assert(!before.contains(l)) by {
            if before.contains(l) {
                let j = choose|j: int| 0 <= j < before.len() && before[j] == l;
                assert(c[j] == c[n - 1]);
            }
        }
        assert(before.push(l) =~= c.take(n as int));
        assert(collect_literals(literal_formula(l), before) == with_literal(before, l));
    } else {
        assert(Seq::<LiteralModel>::empty().push(l) =~= c.take(1));
        assert(collect_literals(literal_formula(l), Seq::empty()) == with_literal(
            Seq::empty(),
            l,
        ));
    }
}

/// The clauses of the formula of a clause set, added to `acc`, are the
/// clauses of the set, in order.
pub proof fn lemma_clauses_roundtrip(
    cs: Seq<Seq<LiteralModel>>,
    n: nat,
    acc: Seq<Seq<LiteralModel>>,
)
    requires
        has_formula(cs),
        clauses_well_formed(cs),
        1 <= n <= cs.len(),
    ensures
        collect_clauses_of(clauses_formula(cs, n), acc) == acc + cs.take(n as int),
    decreases n,
{
    reveal_with_fuel(collect_clauses_of, 2);
    let c = cs[n - 1];
    lemma_clause_formula_shape(c, c.len());
    lemma_clause_roundtrip(c, c.len());
    assert(c.take(c.len() as int) =~= c);
    if n > 1 {
        lemma_clauses_roundtrip(cs, (n - 1) as nat, acc);
        assert((acc + cs.take(n - 1)).push(c) =~= acc + cs.take(n as int));
    } else {
        assert(acc.push(c) =~= acc + cs.take(1));
    }
}

/// Roundtrip of a clause set: the clauses of the conjunction of the
/// disjunctions of its literals are the clause set itself, clause by
/// clause and literal by literal.
pub proof fn lemma_roundtrip(cs: Seq<Seq<LiteralModel>>)
    requires
        has_formula(cs),
        clauses_well_formed(cs),
    ensures
        formula_of(cs).is_cnf(),
        formula_of(cs).clauses() == cs,
{
    lemma_clauses_formula_shape(cs, cs.len());
    lemma_clauses_roundtrip(cs, cs.len(), Seq::empty());
    assert(Seq::<Seq<LiteralModel>>::empty() + cs.take(cs.len() as int) =~= cs);
}

/// The clause set of the negated formula of `cs` is that of a formula in
/// conjunctive normal form.
pub proof fn lemma_refutation_form(cs: Seq<Seq<LiteralModel>>)
    requires
        has_formula(cs),
    ensures
        ({
            let negated = FormulaModel::Not(Box::new(formula_of(cs)));
            &&& negated.clausal_form() == negated.nnf().cnf()
            &&& negated.nnf().pnf() == negated.nnf()
            &&& negated.nnf().quantifier_free()
            &&& negated.nnf().is_nnf()
            &&& negated.nnf().well_formed()
            &&& negated.clausal_form().is_cnf()
        }),
{
    let negated = FormulaModel::Not(Box::new(formula_of(cs)));
    lemma_clauses_formula_shape(cs, cs.len());
    lemma_nnf_shape(negated);
    lemma_nnf_quantifier_free(negated);
    lemma_pnf_quantifier_free(negated.nnf());
    lemma_cnf_shape(negated.nnf());
}

/// The models of the clauses of a list, in order.
pub open spec fn clauses_view(v: Vec<Clause>) -> Seq<Seq<LiteralModel>> {
    Seq::new(v.len() as nat, |i: int| v[i]@)
}

/// A clause set: a list of clauses, read as their conjunction.
#[derive(Debug)]
pub struct Clauses(pub Vec<Clause>);

impl View for Clauses {
    type V = Seq<Seq<LiteralModel>>;

    open spec fn view(&self) -> Seq<Seq<LiteralModel>> {
        clauses_view(self.0)
    }
}

impl Clone for Clauses {
    fn clone(&self) -> (res: Self)
        ensures
            res@ == self@,
    {
        let mut out: Vec<Clause> = Vec::new();
        let mut i: usize = 0;
        while i < self.0.len()
            invariant
                i <= self.0.len(),
                out.len() == i,
                forall|j: int| 0 <= j < i ==> out[j]@ == self.0[j]@,
            decreases self.0.len() - i,
        {
            out.push(self.0[i].clone());
            i += 1;
        }
        assert(clauses_view(out) =~= self@);
        Clauses(out)
    }
}

/// A solver: a function that says whether a clause set is satisfiable.
pub struct SATSolver<F: Fn(Clauses) -> bool>(pub F);

/// The formula of a literal.
pub fn on_lit(lit: &Literal) -> (f: Formula<Cnf>)
    ensures
        f@ == literal_formula(lit@),
{
    match lit {
        Literal::Pos(s) => {
            let f = Formula::pred(s.as_str(), Vec::new());
            assert(f@ == literal_formula(lit@)) by {
                assert(f@->Pred_1 =~= Seq::<TermModel>::empty());
            }
            f
        },
        Literal::Neg(s) => {
            let p: Formula<Cnf> = Formula::pred(s.as_str(), Vec::new());
            assert(p@->Pred_1 =~= Seq::<TermModel>::empty());
            Formula::not(p)
        },
    }
}

/// The disjunction of the literals of a clause.
pub fn on_clause(clause: &Clause) -> (f: Formula<Cnf>)
    requires
        clause@.len() > 0,
    ensures
        f@ == clause_formula(clause@, clause@.len()),
{
    let mut formula = on_lit(&clause.0[0]);
    let mut i: usize = 1;
    while i < clause.0.len()
        invariant
            1 <= i <= clause.0.len(),
            formula@ == clause_formula(clause@, i as nat),
        decreases clause.0.len() - i,
    {
        formula = Formula::or(formula, on_lit(&clause.0[i]));
        i += 1;
    }
    formula
}

/// The literals of a disjunction of literals, added to `set`.
pub fn collect_disjunctives(formula: Formula<Cnf>, set: &mut Clause)
    requires
        formula@.is_clause(),
    ensures
        final(set)@ == collect_literals(formula@, old(set)@),
        old(set).well_formed() ==> final(set).well_formed(),
    decreases formula,
{
    match formula {
        Formula::Or(Or { formula1, formula2, .. }) => {
            collect_disjunctives(*formula1, set);
            collect_disjunctives(*formula2, set);
        },
        Formula::Not(Not { formula, .. }) => {
            let ghost inner = (*formula)@;
            match *formula {
                Formula::Pred(pred) => {
                    assert(inner == FormulaModel::Pred(pred.name@, terms_view(pred.terms)));
                    set.insert(Literal::neg(pred.unique()));
                },
                _ => {
                    assert(false);
                },
            }
        },
        Formula::Pred(pred) => {
            set.insert(Literal::pos(pred.unique()));
        },
        _ => {
            assert(false);
        },
    }
}

/// The clauses of a formula in conjunctive normal form, added to `clauses`.
pub fn collect_clauses(formula: Formula<Cnf>, clauses: &mut Clauses)
    requires
        formula@.is_cnf(),
    ensures
        final(clauses)@ == collect_clauses_of(formula@, old(clauses)@),
        old(clauses).well_formed() ==> final(clauses).well_formed(),
    decreases formula,
{
    match formula {
        Formula::And(And { formula1, formula2, .. }) => {
            collect_clauses(*formula1, clauses);
            collect_clauses(*formula2, clauses);
        },
        other => {
            let mut clause = Clause::new();
            collect_disjunctives(other, &mut clause);
            clauses.push(clause);
        },
    }
}

impl Clauses {
    /// No clause holds a literal twice.
    pub open spec fn well_formed(&self) -> bool {
        clauses_well_formed(self@)
    }

    pub fn new() -> (cs: Self)
        ensures
            cs@ == Seq::<Seq<LiteralModel>>::empty(),
            cs.well_formed(),
    {
        let cs = Clauses(Vec::new());
        assert(cs@ =~= Seq::<Seq<LiteralModel>>::empty());
        cs
    }

    pub fn len(&self) -> (n: usize)
        ensures
            n == self@.len(),
    {
        self.0.len()
    }

    pub fn is_empty(&self) -> (b: bool)
        ensures
            b == (self@.len() == 0),
    {
        self.0.len() == 0
    }

    /// Adds a clause at the end.
    pub fn push(&mut self, clause: Clause)
        ensures
            final(self)@ == old(self)@.push(clause@),
            old(self).well_formed() && clause.well_formed() ==> final(self).well_formed(),
    {
        self.0.push(clause);
        assert(self@ =~= old(self)@.push(clause@));
    }

    /// Adds the clauses of `other` at the end, in order.
    pub fn append(&mut self, other: Clauses)
        ensures
            final(self)@ == old(self)@ + other@,
            old(self).well_formed() && other.well_formed() ==> final(self).well_formed(),
    {
        let mut other = other;
        let ghost added = other@;
        self.0.append(&mut other.0);
        assert(self@ =~= old(self)@ + added);
    }

    /// Whether the clause set has a formula: it holds a clause, and no
    /// clause is empty.
    pub fn has_formula(&self) -> (b: bool)
        ensures
            b == has_formula(self@),
    {
        if self.0.len() == 0 {
            return false;
        }
        let mut i: usize = 0;
        while i < self.0.len()
            invariant
                i <= self.0.len(),
                forall|j: int| 0 <= j < i ==> (#[trigger] self@[j]).len() > 0,
            decreases self.0.len() - i,
        {
            if self.0[i].is_empty() {
                assert(self@[i as int].len() == 0);
                return false;
            }
            i += 1;
        }
        true
    }

    /// The clause set of a formula in conjunctive normal form.
    pub fn from_formula(formla: Formula<Cnf>) -> (cs: Self)
        requires
            formla@.is_cnf(),
        ensures
            cs@ == formla@.clauses(),
            cs.well_formed(),
    {
        let mut result = Clauses::new();
        collect_clauses(formla, &mut result);
        result
    }

    /// The clause set of a text in the DIMACS format, given by its lines.
    pub fn from_dimacs(lines: &Vec<String>) -> (r: Result<Clauses, DimacsError>)
        ensures
            match r {
                Ok(cs) => dimacs_clauses(texts_view(*lines)) == Ok::<
                    Seq<Seq<LiteralModel>>,
                    DimacsErrorModel,
                >(cs@) && cs.well_formed(),
                Err(e) => dimacs_clauses(texts_view(*lines)) == Err::<
                    Seq<Seq<LiteralModel>>,
                    DimacsErrorModel,
                >(e@),
            },
    {
        crate::sat::dimacs::parse(lines)
    }

    /// The clause set of a formula, unless the formula is not in
    /// conjunctive normal form.
    pub fn checked_from_formula(formula: Formula<Cnf>) -> (cs: Option<Clauses>)
        ensures
            match cs {
                Some(clauses) => formula@.is_cnf() && clauses@ == formula@.clauses()
                    && clauses.well_formed(),
                None => !formula@.is_cnf(),
            },
    {
        if formula.is_cnf() {
            Some(Clauses::from_formula(formula))
        } else {
            None
        }
    }

    /// The formula of the clause set, unless the clause set has none: it
    /// is empty, or it holds an empty clause.
    pub fn checked_to_formula(&self) -> (f: Option<Formula<Cnf>>)
        ensures
            match f {
                Some(formula) => has_formula(self@) && formula@ == formula_of(self@),
                None => !has_formula(self@),
            },
    {
        if self.has_formula() {
            Some(self.to_formula())
        } else {
            None
        }
    }

    /// The formula of the clause set: the conjunction of the disjunctions
    /// of its literals.
    pub fn to_formula(&self) -> (f: Formula<Cnf>)
        requires
            has_formula(self@),
        ensures
            f@ == formula_of(self@),
            f@.is_cnf(),
            self.well_formed() ==> f@.clauses() == self@,
    {
        proof {
            lemma_clauses_formula_shape(self@, self@.len());
            if self.well_formed() {
                lemma_roundtrip(self@);
            }
        }
        assert(self@[0].len() > 0);
        let mut formula = on_clause(&self.0[0]);
        let mut i: usize = 1;
        while i < self.0.len()
            invariant
                1 <= i <= self.0.len(),
                has_formula(self@),
                formula@ == clauses_formula(self@, i as nat),
            decreases self.0.len() - i,
        {
            assert(self@[i as int].len() > 0);
            formula = Formula::and(formula, on_clause(&self.0[i]));
            i += 1;
        }
        formula
    }

    /// What the solver says of the clause set.
    pub fn is_satisfiable<F: Fn(Clauses) -> bool>(self, sat: SATSolver<F>) -> (b: bool)
        requires
            call_requires(sat.0, (self,)),
        ensures
            call_ensures(sat.0, (self,), b),
    {
        (sat.0)(self)
    }

    /// Validity by refutation: the formula of the clause set is valid if
    /// the solver finds the clause set of its negation unsatisfiable.
    pub fn is_valid<F: Fn(Clauses) -> bool>(self, sat: SATSolver<F>) -> (valid: bool)
        requires
            has_formula(self@),
            forall|cs: Clauses| cs@ == refutation_clauses(self@) ==> call_requires(sat.0, (cs,)),
        ensures
            exists|cs: Clauses, satisfiable: bool|
                cs@ == refutation_clauses(self@) && call_ensures(sat.0, (cs,), satisfiable)
                    && valid == !satisfiable,
    {
        proof {
            lemma_refutation_form(self@);
        }
        let neg = Formula::not(self.to_formula()).cast::<Raw>().to_nnf().to_pnf().skolemize().ground().to_cnf();
        let cs = Clauses::from_formula(neg);
        let satisfiable = (sat.0)(cs);
        assert(cs@ == refutation_clauses(self@) && call_ensures(sat.0, (cs,), satisfiable));
        !satisfiable
    }
}

/// The first `n` literals of a clause as text: each literal is its symbol,
/// behind a minus sign if it is negative, and a blank.
pub open spec fn literals_text(c: Seq<LiteralModel>, n: nat) -> Seq<char>
    decreases n,
{
    if n == 0 || n > c.len() {
        Seq::empty()
    } else {
        literals_text(c, (n - 1) as nat) + match c[n - 1] {
            LiteralModel::Pos(s) => s + " "@,
            LiteralModel::Neg(s) => "-"@ + s + " "@,
        }
    }
}

/// A clause as text: its literals between braces.
pub open spec fn clause_text(c: Seq<LiteralModel>) -> Seq<char> {
    "{ "@ + literals_text(c, c.len()) + "}"@
}

/// The first `n` clauses of a clause set as text, one after the other.
pub open spec fn clauses_text_upto(cs: Seq<Seq<LiteralModel>>, n: nat) -> Seq<char>
    decreases n,
{
    if n == 0 || n > cs.len() {
        Seq::empty()
    } else {
        clauses_text_upto(cs, (n - 1) as nat) + clause_text(cs[n - 1])
    }
}

/// A clause set as text: its clauses between brackets.
pub open spec fn clauses_text(cs: Seq<Seq<LiteralModel>>) -> Seq<char> {
    "["@ + clauses_text_upto(cs, cs.len()) + "]"@
}

impl Clause {
    /// Appends the clause as text.
    pub fn push_text(&self, out: &mut String)
        ensures
            final(out)@ == old(out)@ + clause_text(self@),
    {
        out.append("{ ");
        let ghost start = out@;
        let mut i: usize = 0;
        assert(out@ =~= start + literals_text(self@, 0));
        while i < self.0.len()
            invariant
                i <= self.0.len(),
                out@ == start + literals_text(self@, i as nat),
            decreases self.0.len() - i,
        {
            let ghost before = out@;
            match &self.0[i] {
                Literal::Pos(s) => {
                    out.append(s.as_str());
                    out.append(" ");
                    assert(out@ =~= before + (s@ + " "@));
                },
                Literal::Neg(s) => {
                    out.append("-");
                    out.append(s.as_str());
                    out.append(" ");
                    assert(out@ =~= before + ("-"@ + s@ + " "@));
                },
            }
            assert(out@ =~= start + literals_text(self@, (i + 1) as nat));
            i += 1;
        }
        out.append("}");
        assert(out@ =~= old(out)@ + clause_text(self@));
    }

    /// The clause as text.
    pub fn display(&self) -> (text: String)
        ensures
            text@ == clause_text(self@),
    {
        let mut out = String::new();
        self.push_text(&mut out);
        assert(out@ =~= clause_text(self@));
        out
    }
}

impl Clauses {
    /// The clause set as text.
    pub fn display(&self) -> (text: String)
        ensures
            text@ == clauses_text(self@),
    {
        let mut out = String::from_str("[");
        let ghost start = out@;
        let mut i: usize = 0;
        assert(out@ =~= start + clauses_text_upto(self@, 0));
        while i < self.0.len()
            invariant
                i <= self.0.len(),
                start == "["@,
                out@ == start + clauses_text_upto(self@, i as nat),
            decreases self.0.len() - i,
        {
            self.0[i].push_text(&mut out);
            assert(out@ =~= start + clauses_text_upto(self@, (i + 1) as nat));
            i += 1;
        }
        out.append("]");
        out
    }
}

} // verus!
