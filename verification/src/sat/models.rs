use vstd::prelude::*;
use crate::fol::ast::{atom_symbol, FormulaModel};
use crate::fol::cnf::{distribute, lemma_cnf_shape};
use crate::fol::nnf::{lemma_nnf_quantifier_free, lemma_nnf_shape};
use crate::fol::pnf::{lemma_no_prefix, lemma_pnf_quantifier_free};
use crate::sat::clauses::{
    clauses_well_formed, collect_clauses_of, collect_literals, formula_of, has_formula,
    is_other_than, lemma_clauses_formula_shape, lemma_filter_contains_iff, lemma_roundtrip,
    refutation_clauses, with_literal, without_literal, LiteralModel,
};
use crate::sat::dp::{
    dp, dp_within, first_unit, has_empty_clause, has_pure, has_pure_literal, lacks,
    lemma_filter_elem, lemma_propagated_measure, lemma_unit_occurs, lemma_without_pure_measure,
    no_pure_literal, occurs, propagated, ranked, symbols, unit_from, without_pure,
};

verus! {

/// The literal is true under the valuation `v`, the set of the symbols
/// that are true.
pub open spec fn literal_true(l: LiteralModel, v: Set<Seq<char>>) -> bool {
    match l {
        LiteralModel::Pos(s) => v.contains(s),
        LiteralModel::Neg(s) => !v.contains(s),
    }
}

/// The clause is true under `v`: one of its literals is.
pub open spec fn clause_true(c: Seq<LiteralModel>, v: Set<Seq<char>>) -> bool {
    exists|j: int| 0 <= j < c.len() && literal_true(#[trigger] c[j], v)
}

/// The valuation `v` satisfies the clause set: every clause is true under it.
pub open spec fn satisfies(v: Set<Seq<char>>, cs: Seq<Seq<LiteralModel>>) -> bool {
    forall|k: int| 0 <= k < cs.len() ==> clause_true(#[trigger] cs[k], v)
}

/// Some valuation satisfies the clause set.
pub open spec fn satisfiable(cs: Seq<Seq<LiteralModel>>) -> bool {
    exists|v: Set<Seq<char>>| satisfies(v, cs)
}

/// The valuation `v` changed so that `l` is true.
pub open spec fn making_true(v: Set<Seq<char>>, l: LiteralModel) -> Set<Seq<char>> {
    match l {
        LiteralModel::Pos(s) => v.insert(s),
        LiteralModel::Neg(s) => v.remove(s),
    }
}

/// A clause that holds a true literal is true.
pub proof fn lemma_clause_true(c: Seq<LiteralModel>, v: Set<Seq<char>>, l: LiteralModel)
    requires
        c.contains(l),
        literal_true(l, v),
    ensures
        clause_true(c, v),
{
    let j = choose|j: int| 0 <= j < c.len() && c[j] == l;
    assert(literal_true(c[j], v));
}

/// No valuation satisfies a clause set that holds an empty clause.
pub proof fn lemma_empty_clause_unsatisfiable(cs: Seq<Seq<LiteralModel>>)
    requires
        has_empty_clause(cs),
    ensures
        !satisfiable(cs),
{
    let k = choose|k: int| 0 <= k < cs.len() && (#[trigger] cs[k]).len() == 0;
    assert forall|v: Set<Seq<char>>| !satisfies(v, cs) by {
        assert(!clause_true(cs[k], v));
    }
}

/// Unit propagation loses no model: a valuation that satisfies what it
/// leaves satisfies the clause set, once the unit literal is made true.
pub proof fn lemma_propagated_model(cs: Seq<Seq<LiteralModel>>, u: LiteralModel, v: Set<Seq<char>>)
    requires
        satisfies(v, propagated(cs, u)),
    ensures
        satisfies(making_true(v, u), cs),
{
    let w = making_true(v, u);
    let kept = cs.filter(lacks(u));
    let out = propagated(cs, u);
    let nu = u.negated();
    assert forall|k: int| 0 <= k < cs.len() implies clause_true(#[trigger] cs[k], w) by {
        let c = cs[k];
        if c.contains(u) {
            lemma_clause_true(c, w, u);
        } else {
            cs.lemma_filter_contains(lacks(u), k);
            let i = choose|i: int| 0 <= i < kept.len() && kept[i] == c;
            assert(out[i] == without_literal(c, nu));
            assert(clause_true(out[i], v));
            let j = choose|j: int| 0 <= j < out[i].len() && literal_true(#[trigger] out[i][j], v);
            let l = out[i][j];
            assert(out[i].contains(l));
            lemma_filter_contains_iff(c, is_other_than(nu), l);
            assert(l != u && l != nu);
            assert(literal_true(l, w));
            lemma_clause_true(c, w, l);
        }
    }
}

/// Unit propagation adds no model: a valuation that satisfies a clause
/// set with the unit clause of `u` satisfies what unit propagation leaves.
pub proof fn lemma_propagated_keeps_model(
    cs: Seq<Seq<LiteralModel>>,
    u: LiteralModel,
    v: Set<Seq<char>>,
)
    requires
        satisfies(v, cs),
        cs.contains(seq![u]),
    ensures
        satisfies(v, propagated(cs, u)),
{
    let kept = cs.filter(lacks(u));
    let out = propagated(cs, u);
    let nu = u.negated();
    let i0 = choose|i: int| 0 <= i < cs.len() && cs[i] == seq![u];
    assert(clause_true(cs[i0], v));
    assert(literal_true(u, v));
    assert forall|k: int| 0 <= k < out.len() implies clause_true(#[trigger] out[k], v) by {
        lemma_filter_elem(cs, lacks(u), k);
        let i = choose|i: int| 0 <= i < cs.len() && cs[i] == kept[k];
        assert(clause_true(cs[i], v));
        let j = choose|j: int| 0 <= j < cs[i].len() && literal_true(#[trigger] cs[i][j], v);
        let l = cs[i][j];
        assert(cs[i].contains(l));
        assert(l != nu);
        lemma_filter_contains_iff(kept[k], is_other_than(nu), l);
        assert(out[k] == without_literal(kept[k], nu));
        lemma_clause_true(out[k], v, l);
    }
}

/// Pure-literal elimination adds no model: a valuation that satisfies a
/// clause set satisfies what the elimination leaves.
pub proof fn lemma_without_pure_keeps_model(cs: Seq<Seq<LiteralModel>>, v: Set<Seq<char>>)
    requires
        satisfies(v, cs),
    ensures
        satisfies(v, without_pure(cs)),
{
    let out = without_pure(cs);
    assert forall|k: int| 0 <= k < out.len() implies clause_true(#[trigger] out[k], v) by {
        lemma_filter_elem(cs, no_pure_literal(cs), k);
        let i = choose|i: int| 0 <= i < cs.len() && cs[i] == out[k];
        assert(clause_true(cs[i], v));
    }
}

/// The valuation `v` changed so that every pure literal of the clause
/// set is true.
pub open spec fn making_pure_true(v: Set<Seq<char>>, cs: Seq<Seq<LiteralModel>>) -> Set<Seq<char>> {
    Set::new(
        |s: Seq<char>|
            if occurs(cs, LiteralModel::Pos(s)) && !occurs(cs, LiteralModel::Neg(s)) {
                true
            } else if occurs(cs, LiteralModel::Neg(s)) && !occurs(cs, LiteralModel::Pos(s)) {
                false
            } else {
                v.contains(s)
            },
    )
}

/// Pure-literal elimination loses no model: a valuation that satisfies
/// what it leaves satisfies the clause set, once the pure literals are
/// made true.
pub proof fn lemma_without_pure_model(cs: Seq<Seq<LiteralModel>>, v: Set<Seq<char>>)
    requires
        satisfies(v, without_pure(cs)),
    ensures
        satisfies(making_pure_true(v, cs), cs),
{
    let w = making_pure_true(v, cs);
    let out = without_pure(cs);
    assert forall|k: int| 0 <= k < cs.len() implies clause_true(#[trigger] cs[k], w) by {
        let c = cs[k];
        if has_pure_literal(cs, c) {
            let j = choose|j: int| 0 <= j < c.len() && !occurs(cs, (#[trigger] c[j]).negated());
            let l = c[j];
            assert(c.contains(l));
            assert(occurs(cs, l));
            assert(literal_true(l, w));
        } else {
            cs.lemma_filter_contains(no_pure_literal(cs), k);
            let i = choose|i: int| 0 <= i < out.len() && out[i] == c;
            assert(clause_true(out[i], v));
            let j = choose|j: int| 0 <= j < c.len() && literal_true(#[trigger] c[j], v);
            let l = c[j];
            assert(c.contains(l));
            assert(occurs(cs, l));
            assert(literal_true(l, w));
        }
    }
}

/// A unit clause of the literal of the first unit clause is in the set.
pub proof fn lemma_unit_clause(cs: Seq<Seq<LiteralModel>>, i: nat)
    requires
        unit_from(cs, i) is Some,
    ensures
        cs.contains(seq![unit_from(cs, i)->0]),
    decreases cs.len() - i,
{
    if i >= cs.len() {
    } else if cs[i as int].len() == 1 {
        assert(cs[i as int] =~= seq![cs[i as int][0]]);
    } else {
        lemma_unit_clause(cs, i + 1);
    }
}

/// What unit propagation and pure-literal elimination settle by
/// themselves: the empty clause set is satisfiable, one with an empty
/// clause is not, and otherwise the first of the two rules that applies is
/// applied. Where neither applies, the matter is not settled.
pub open spec fn settled(cs: Seq<Seq<LiteralModel>>) -> Option<bool>
    decreases symbols(cs).len(),
{
    if cs.len() == 0 {
        Some(true)
    } else if has_empty_clause(cs) {
        Some(false)
    } else if first_unit(cs) is Some {
        let u = first_unit(cs)->0;
        proof {
            lemma_unit_occurs(cs, 0);
            lemma_propagated_measure(cs, u);
        }
        settled(propagated(cs, u))
    } else if has_pure(cs) {
        proof {
            lemma_without_pure_measure(cs);
        }
        settled(without_pure(cs))
    } else {
        None
    }
}

/// Where unit propagation and pure-literal elimination settle the matter,
/// the procedure answers as they do, whatever passes of resolution it is
/// allowed, and the answer is right: the clause set is satisfiable exactly
/// if the answer says so.
pub proof fn lemma_settled(cs: Seq<Seq<LiteralModel>>, passes: nat)
    requires
        settled(cs) is Some,
    ensures
        dp_within(cs, passes) == settled(cs)->0,
        satisfiable(cs) == settled(cs)->0,
    decreases symbols(cs).len(),
{
    if cs.len() == 0 {
        assert(satisfies(Set::<Seq<char>>::empty(), cs));
    } else if has_empty_clause(cs) {
        lemma_empty_clause_unsatisfiable(cs);
    } else if first_unit(cs) is Some {
        let u = first_unit(cs)->0;
        let out = propagated(cs, u);
        lemma_unit_occurs(cs, 0);
        lemma_unit_clause(cs, 0);
        lemma_propagated_measure(cs, u);
        lemma_settled(out, passes);
        if satisfiable(out) {
            let v = choose|v: Set<Seq<char>>| satisfies(v, out);
            lemma_propagated_model(cs, u, v);
            assert(satisfies(making_true(v, u), cs));
        }
        if satisfiable(cs) {
            let v = choose|v: Set<Seq<char>>| satisfies(v, cs);
            lemma_propagated_keeps_model(cs, u, v);
            assert(satisfies(v, out));
        }
    } else if has_pure(cs) {
        let out = without_pure(cs);
        lemma_without_pure_measure(cs);
        lemma_settled(out, passes);
        if satisfiable(out) {
            let v = choose|v: Set<Seq<char>>| satisfies(v, out);
            lemma_without_pure_model(cs, v);
            assert(satisfies(making_pure_true(v, cs), cs));
        }
        if satisfiable(cs) {
            let v = choose|v: Set<Seq<char>>| satisfies(v, cs);
            lemma_without_pure_keeps_model(cs, v);
            assert(satisfies(v, out));
        }
    } else {
    }
}

/// Where unit propagation and pure-literal elimination settle the matter,
/// the answer of the procedure is right.
pub proof fn lemma_dp_settled(cs: Seq<Seq<LiteralModel>>)
    requires
        settled(cs) is Some,
    ensures
        dp(cs) == satisfiable(cs),
{
    lemma_settled(cs, ranked(cs).len());
}

/// Whether a formula without quantifiers is true when its atoms are read
/// as propositional symbols and `v` is the set of the true ones. A
/// quantification and a placeholder are not true.
pub open spec fn true_under(f: FormulaModel, v: Set<Seq<char>>) -> bool
    decreases f,
{
    match f {
        FormulaModel::Pred(name, args) => v.contains(atom_symbol(name, args)),
        FormulaModel::Not(a) => !true_under(*a, v),
        FormulaModel::And(a, b) => true_under(*a, v) && true_under(*b, v),
        FormulaModel::Or(a, b) => true_under(*a, v) || true_under(*b, v),
        FormulaModel::Implies(a, b) => !true_under(*a, v) || true_under(*b, v),
        FormulaModel::Iff(a, b) => true_under(*a, v) == true_under(*b, v),
        FormulaModel::ForAll(_, _) => false,
        FormulaModel::Exists(_, _) => false,
        FormulaModel::Dummy => false,
    }
}

/// The negation normal form of a formula without quantifiers is true
/// under the valuations under which the formula is.
pub proof fn lemma_nnf_truth(f: FormulaModel, v: Set<Seq<char>>)
    requires
        f.quantifier_free(),
    ensures
        true_under(f.nnf(), v) == true_under(f, v),
        true_under(f.nnf_neg(), v) == !true_under(f, v),
    decreases f,
{
    reveal_with_fuel(true_under, 3);
    match f {
        FormulaModel::Not(a) => {
            lemma_nnf_truth(*a, v);
        },
        FormulaModel::And(a, b) => {
            lemma_nnf_truth(*a, v);
            lemma_nnf_truth(*b, v);
        },
        FormulaModel::Or(a, b) => {
            lemma_nnf_truth(*a, v);
            lemma_nnf_truth(*b, v);
        },
        FormulaModel::Implies(a, b) => {
            lemma_nnf_truth(*a, v);
            lemma_nnf_truth(*b, v);
        },
        FormulaModel::Iff(a, b) => {
            lemma_nnf_truth(*a, v);
            lemma_nnf_truth(*b, v);
        },
        _ => {},
    }
}

/// A distributed disjunction is true exactly if one of its sides is.
pub proof fn lemma_distribute_truth(l: FormulaModel, r: FormulaModel, v: Set<Seq<char>>)
    ensures
        true_under(distribute(l, r), v) == (true_under(l, v) || true_under(r, v)),
    decreases l.size() + r.size(),
{
    match r {
        FormulaModel::And(a, b) => {
            lemma_distribute_truth(l, *a, v);
            lemma_distribute_truth(l, *b, v);
        },
        _ => match l {
            FormulaModel::And(a, b) => {
                lemma_distribute_truth(*a, r, v);
                lemma_distribute_truth(*b, r, v);
            },
            _ => {},
        },
    }
}

/// The conjunctive normal form is true under the valuations under which
/// the formula is.
pub proof fn lemma_cnf_truth(f: FormulaModel, v: Set<Seq<char>>)
    ensures
        true_under(f.cnf(), v) == true_under(f, v),
    decreases f,
{
    match f {
        FormulaModel::And(a, b) => {
            lemma_cnf_truth(*a, v);
            lemma_cnf_truth(*b, v);
        },
        FormulaModel::Or(a, b) => {
            lemma_cnf_truth(*a, v);
            lemma_cnf_truth(*b, v);
            lemma_distribute_truth(a.cnf(), b.cnf(), v);
        },
        _ => {},
    }
}

/// A clause with one more literal is true if it was, or if the literal is.
pub proof fn lemma_with_literal_truth(c: Seq<LiteralModel>, l: LiteralModel, v: Set<Seq<char>>)
    ensures
        clause_true(with_literal(c, l), v) == (clause_true(c, v) || literal_true(l, v)),
{
    let w = with_literal(c, l);
    if clause_true(w, v) {
        let j = choose|j: int| 0 <= j < w.len() && literal_true(#[trigger] w[j], v);
        if j < c.len() {
            assert(literal_true(c[j], v));
        }
    }
    if clause_true(c, v) {
        let j = choose|j: int| 0 <= j < c.len() && literal_true(#[trigger] c[j], v);
        assert(literal_true(w[j], v));
    }
    if literal_true(l, v) {
        if c.contains(l) {
            lemma_clause_true(c, v, l);
        } else {
            assert(literal_true(w[c.len() as int], v));
        }
    }
}

/// The literals of a disjunction of literals, added to a clause, make it
/// true exactly if it was true or the disjunction is.
pub proof fn lemma_collect_literals_truth(f: FormulaModel, acc: Seq<LiteralModel>, v: Set<Seq<char>>)
    requires
        f.is_clause(),
    ensures
        clause_true(collect_literals(f, acc), v) == (clause_true(acc, v) || true_under(f, v)),
    decreases f,
{
    reveal_with_fuel(true_under, 2);
    match f {
        FormulaModel::Or(a, b) => {
            lemma_collect_literals_truth(*a, acc, v);
            lemma_collect_literals_truth(*b, collect_literals(*a, acc), v);
        },
        FormulaModel::Pred(name, args) => {
            lemma_with_literal_truth(acc, LiteralModel::Pos(atom_symbol(name, args)), v);
        },
        FormulaModel::Not(a) => {
            match *a {
                FormulaModel::Pred(name, args) => {
                    lemma_with_literal_truth(acc, LiteralModel::Neg(atom_symbol(name, args)), v);
                },
                _ => {},
            }
        },
        _ => {},
    }
}

/// The clauses of a formula in conjunctive normal form, added to a clause
/// set, are satisfied by the valuations that satisfy the clause set and
/// make the formula true.
pub proof fn lemma_collect_clauses_truth(
    f: FormulaModel,
    acc: Seq<Seq<LiteralModel>>,
    v: Set<Seq<char>>,
)
    requires
        f.is_cnf(),
    ensures
        satisfies(v, collect_clauses_of(f, acc)) == (satisfies(v, acc) && true_under(f, v)),
    decreases f,
{
    match f {
        FormulaModel::And(a, b) => {
            lemma_collect_clauses_truth(*a, acc, v);
            lemma_collect_clauses_truth(*b, collect_clauses_of(*a, acc), v);
        },
        _ => {
            let c = collect_literals(f, Seq::empty());
            lemma_collect_literals_truth(f, Seq::empty(), v);
            assert(!clause_true(Seq::<LiteralModel>::empty(), v));
            let out = acc.push(c);
            if satisfies(v, out) {
                assert(clause_true(out[acc.len() as int], v));
                assert forall|k: int| 0 <= k < acc.len() implies clause_true(#[trigger] acc[k], v) by {
                    assert(clause_true(out[k], v));
                }
            }
            if satisfies(v, acc) && true_under(f, v) {
                assert forall|k: int| 0 <= k < out.len() implies clause_true(#[trigger] out[k], v) by {
                    if k < acc.len() {
                        assert(out[k] == acc[k]);
                    }
                }
            }
        },
    }
}

/// The valuations that satisfy the clause set of a formula in conjunctive
/// normal form are those under which the formula is true.
pub proof fn lemma_clauses_truth(f: FormulaModel, v: Set<Seq<char>>)
    requires
        f.is_cnf(),
    ensures
        satisfies(v, f.clauses()) == true_under(f, v),
{
    lemma_collect_clauses_truth(f, Seq::empty(), v);
    assert(satisfies(v, Seq::<Seq<LiteralModel>>::empty()));
}

/// For a formula without quantifiers and placeholders, every stage keeps
/// the valuations: those that satisfy the clause set at the end are those
/// under which the formula is true.
pub proof fn lemma_clausal_form_truth(f: FormulaModel, v: Set<Seq<char>>)
    requires
        f.quantifier_free(),
        f.well_formed(),
    ensures
        f.clausal_form() == f.nnf().cnf(),
        f.clausal_form().is_cnf(),
        satisfies(v, f.clausal_form().clauses()) == true_under(f, v),
{
    let n = f.nnf();
    lemma_nnf_shape(f);
    lemma_nnf_quantifier_free(f);
    lemma_pnf_quantifier_free(n);
    lemma_no_prefix(n, n, Set::empty());
    lemma_cnf_shape(n);
    lemma_nnf_truth(f, v);
    lemma_cnf_truth(n, v);
    lemma_clauses_truth(n.cnf(), v);
}

/// For a formula without quantifiers and placeholders whose clause set
/// unit propagation and pure-literal elimination settle, the procedure
/// finds the clause set satisfiable exactly if the formula is true under
/// some valuation of its atoms.
pub proof fn lemma_dp_settled_for_formula(f: FormulaModel)
    requires
        f.quantifier_free(),
        f.well_formed(),
        settled(f.clausal_form().clauses()) is Some,
    ensures
        dp(f.clausal_form().clauses()) == exists|v: Set<Seq<char>>| true_under(f, v),
{
    let cs = f.clausal_form().clauses();
    lemma_dp_settled(cs);
    if satisfiable(cs) {
        let v = choose|v: Set<Seq<char>>| satisfies(v, cs);
        lemma_clausal_form_truth(f, v);
        assert(true_under(f, v));
    }
    if exists|v: Set<Seq<char>>| true_under(f, v) {
        let v = choose|v: Set<Seq<char>>| true_under(f, v);
        lemma_clausal_form_truth(f, v);
        assert(satisfies(v, cs));
    }
}

/// Validity by refutation is right where unit propagation and
/// pure-literal elimination settle the matter: the procedure finds the
/// clause set of the negation unsatisfiable exactly if every valuation
/// satisfies the clause set.
pub proof fn lemma_valid_settled(cs: Seq<Seq<LiteralModel>>)
    requires
        has_formula(cs),
        clauses_well_formed(cs),
        settled(refutation_clauses(cs)) is Some,
    ensures
        !dp(refutation_clauses(cs)) == forall|v: Set<Seq<char>>| satisfies(v, cs),
{
    let f = formula_of(cs);
    let negated = FormulaModel::Not(Box::new(f));
    lemma_clauses_formula_shape(cs, cs.len());
    lemma_roundtrip(cs);
    lemma_dp_settled_for_formula(negated);
    assert forall|v: Set<Seq<char>>| true_under(negated, v) == !satisfies(v, cs) by {
        lemma_clauses_truth(f, v);
    }
    if dp(refutation_clauses(cs)) {
        let v = choose|v: Set<Seq<char>>| true_under(negated, v);
        assert(!satisfies(v, cs));
    } else {
        assert forall|v: Set<Seq<char>>| satisfies(v, cs) by {
            assert(!true_under(negated, v));
        }
    }
}

} // verus!
