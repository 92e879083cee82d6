use vstd::prelude::*;
use vstd::set_lib::lemma_len_subset;
use vstd::string::*;
use crate::text::same_text;
use crate::sat::dimacs::texts_view;
use crate::fol::ast::FormulaModel;
use crate::fol::nnf::lemma_nnf_double_negation;
use crate::sat::clauses::{
    lemma_filter_contains_iff, lemma_filter_no_duplicates, lemma_union_no_duplicates, union_of,
    without_complements, without_literal, has_no_complement_in,
    is_other_than, Clause, Clauses, Literal, LiteralModel,
};

verus! {

/// `l` occurs in the clause set: some clause holds it.
pub open spec fn occurs(cs: Seq<Seq<LiteralModel>>, l: LiteralModel) -> bool {
    exists|k: int| 0 <= k < cs.len() && (#[trigger] cs[k]).contains(l)
}

/// The clause set holds an empty clause.
pub open spec fn has_empty_clause(cs: Seq<Seq<LiteralModel>>) -> bool {
    exists|k: int| 0 <= k < cs.len() && (#[trigger] cs[k]).len() == 0
}

/// The literal of the first unit clause at or after index `i`, if there is one.
pub open spec fn unit_from(cs: Seq<Seq<LiteralModel>>, i: nat) -> Option<LiteralModel>
    decreases cs.len() - i,
{
    if i >= cs.len() {
        None
    } else if cs[i as int].len() == 1 {
        Some(cs[i as int][0])
    } else {
        unit_from(cs, i + 1)
    }
}

/// The literal of the first unit clause, if there is one.
pub open spec fn first_unit(cs: Seq<Seq<LiteralModel>>) -> Option<LiteralModel> {
    unit_from(cs, 0)
}

/// The clauses that do not hold `l`.
pub open spec fn lacks(l: LiteralModel) -> spec_fn(Seq<LiteralModel>) -> bool {
    |c: Seq<LiteralModel>| !c.contains(l)
}

/// Takes `l` out of a clause.
pub open spec fn drops(l: LiteralModel) -> spec_fn(Seq<LiteralModel>) -> Seq<LiteralModel> {
    |c: Seq<LiteralModel>| without_literal(c, l)
}

/// Unit propagation with the literal `u`: every clause that holds `u` is
/// deleted, and the negation of `u` is taken out of the others.
pub open spec fn propagated(cs: Seq<Seq<LiteralModel>>, u: LiteralModel) -> Seq<Seq<LiteralModel>> {
    cs.filter(lacks(u)).map_values(drops(u.negated()))
}

/// The clause holds a pure literal: one whose negation occurs nowhere in
/// the clause set.
pub open spec fn has_pure_literal(cs: Seq<Seq<LiteralModel>>, c: Seq<LiteralModel>) -> bool {
    exists|j: int| 0 <= j < c.len() && !occurs(cs, (#[trigger] c[j]).negated())
}

/// Some clause of the clause set holds a pure literal.
pub open spec fn has_pure(cs: Seq<Seq<LiteralModel>>) -> bool {
    exists|k: int| 0 <= k < cs.len() && has_pure_literal(cs, #[trigger] cs[k])
}

/// The clauses without pure literal.
pub open spec fn no_pure_literal(cs: Seq<Seq<LiteralModel>>) -> spec_fn(Seq<LiteralModel>) -> bool {
    |c: Seq<LiteralModel>| !has_pure_literal(cs, c)
}

/// Pure-literal elimination: every clause that holds a pure literal is deleted.
pub open spec fn without_pure(cs: Seq<Seq<LiteralModel>>) -> Seq<Seq<LiteralModel>> {
    cs.filter(no_pure_literal(cs))
}

/// The literals of the symbol `s`.
pub open spec fn has_symbol(s: Seq<char>) -> spec_fn(LiteralModel) -> bool {
    |l: LiteralModel| l.symbol() == s
}

/// How often the symbol `s` occurs in the first `n` clauses.
pub open spec fn symbol_count(cs: Seq<Seq<LiteralModel>>, n: nat, s: Seq<char>) -> nat
    decreases n,
{
    if n == 0 || n > cs.len() {
        0
    } else {
        symbol_count(cs, (n - 1) as nat, s) + cs[n - 1].filter(has_symbol(s)).len()
    }
}

/// How often the symbol `s` occurs in the clause set.
pub open spec fn occurrences_of(cs: Seq<Seq<LiteralModel>>, s: Seq<char>) -> nat {
    symbol_count(cs, cs.len(), s)
}

/// Whether the name `a` comes before the name `b` from index `i` on, both
/// being the same before `i`: at the first index where they differ `a` has
/// the lesser character, or `a` ends there and `b` goes on.
pub open spec fn name_before_from(a: Seq<char>, b: Seq<char>, i: nat) -> bool
    decreases a.len() - i,
{
    if i >= b.len() {
        false
    } else if i >= a.len() {
        true
    } else if a[i as int] < b[i as int] {
        true
    } else if b[i as int] < a[i as int] {
        false
    } else {
        name_before_from(a, b, i + 1)
    }
}

/// The order of names: character by character, the lesser character first,
/// and a name before every longer name that starts with it.
pub open spec fn name_before(a: Seq<char>, b: Seq<char>) -> bool {
    name_before_from(a, b, 0)
}

/// The rank of symbols: `a` stands before `b` if it occurs more often in
/// the clause set, or as often and its name comes first.
pub open spec fn precedes(cs: Seq<Seq<LiteralModel>>, a: Seq<char>, b: Seq<char>) -> bool {
    occurrences_of(cs, a) > occurrences_of(cs, b) || (occurrences_of(cs, a) == occurrences_of(
        cs,
        b,
    ) && name_before(a, b))
}

/// The better of the best symbol so far and a candidate. A candidate that
/// is done with does not count; another wins if there is no best yet, or
/// if it stands before the best in rank.
pub open spec fn better(
    cs: Seq<Seq<LiteralModel>>,
    best: Option<Seq<char>>,
    candidate: Seq<char>,
    done: Seq<Seq<char>>,
) -> Option<Seq<char>> {
    if done.contains(candidate) {
        best
    } else {
        match best {
            None => Some(candidate),
            Some(b) => if precedes(cs, candidate, b) {
                Some(candidate)
            } else {
                best
            },
        }
    }
}

/// The best symbol after the first `n` literals of the clause `c`.
pub open spec fn best_in_clause(
    cs: Seq<Seq<LiteralModel>>,
    c: Seq<LiteralModel>,
    n: nat,
    best: Option<Seq<char>>,
    done: Seq<Seq<char>>,
) -> Option<Seq<char>>
    decreases n,
{
    if n == 0 || n > c.len() {
        best
    } else {
        better(cs, best_in_clause(cs, c, (n - 1) as nat, best, done), c[n - 1].symbol(), done)
    }
}

/// The best symbol of the first `n` clauses.
pub open spec fn best_symbol(cs: Seq<Seq<LiteralModel>>, n: nat, done: Seq<Seq<char>>) -> Option<
    Seq<char>,
>
    decreases n,
{
    if n == 0 || n > cs.len() {
        None
    } else {
        best_in_clause(cs, cs[n - 1], cs[n - 1].len(), best_symbol(cs, (n - 1) as nat, done), done)
    }
}

/// The symbol of the clause set that comes next in rank after those that
/// are done with, if there is one left.
pub open spec fn next_symbol(cs: Seq<Seq<LiteralModel>>, done: Seq<Seq<char>>) -> Option<Seq<char>> {
    best_symbol(cs, cs.len(), done)
}

/// The symbols of the clause set in rank, behind those that are done with.
pub open spec fn ranked_from(cs: Seq<Seq<LiteralModel>>, done: Seq<Seq<char>>) -> Seq<Seq<char>>
    decreases symbols(cs).difference(done.to_set()).len(),
{
    match next_symbol(cs, done) {
        Some(s) => {
            proof {
                lemma_next_symbol_left(cs, done);
            }
            ranked_from(cs, done.push(s))
        },
        None => done,
    }
}

/// The symbols of the clause set, each once, in rank: by frequency, the
/// most frequent first, and by name among those that occur equally often.
pub open spec fn ranked(cs: Seq<Seq<LiteralModel>>) -> Seq<Seq<char>> {
    ranked_from(cs, Seq::empty())
}

/// The clauses that hold `s` positively.
pub open spec fn in_pos(s: Seq<char>) -> spec_fn(Seq<LiteralModel>) -> bool {
    |c: Seq<LiteralModel>| c.contains(LiteralModel::Pos(s))
}

/// The clauses that hold `s` negatively and not positively.
pub open spec fn in_neg(s: Seq<char>) -> spec_fn(Seq<LiteralModel>) -> bool {
    |c: Seq<LiteralModel>| !c.contains(LiteralModel::Pos(s)) && c.contains(LiteralModel::Neg(s))
}

/// The clauses that hold no literal.
pub open spec fn holds_nothing() -> spec_fn(Seq<LiteralModel>) -> bool {
    |c: Seq<LiteralModel>| c.len() == 0
}

/// The resolvent of two clauses: their union without its complementary pairs.
pub open spec fn resolvent(p: Seq<LiteralModel>, n: Seq<LiteralModel>) -> Seq<LiteralModel> {
    without_complements(union_of(p, n))
}

/// Resolves a clause with `p`.
pub open spec fn resolves_with(p: Seq<LiteralModel>) -> spec_fn(Seq<LiteralModel>) -> Seq<
    LiteralModel,
> {
    |n: Seq<LiteralModel>| resolvent(p, n)
}

/// The resolvents of the first `k` clauses of `pos` with every clause of
/// `neg`, pair by pair.
pub open spec fn resolvents(pos: Seq<Seq<LiteralModel>>, neg: Seq<Seq<LiteralModel>>, k: nat) -> Seq<
    Seq<LiteralModel>,
>
    decreases k,
{
    if k == 0 || k > pos.len() {
        Seq::empty()
    } else {
        resolvents(pos, neg, (k - 1) as nat) + neg.map_values(resolves_with(pos[k - 1]))
    }
}

/// The resolvents on the symbol `s`: of each clause of the clause set that
/// holds `s` positively with each that holds it negatively only.
pub open spec fn resolvents_on(cs: Seq<Seq<LiteralModel>>, s: Seq<char>) -> Seq<Seq<LiteralModel>> {
    resolvents(cs.filter(in_pos(s)), cs.filter(in_neg(s)), cs.filter(in_pos(s)).len())
}

/// The resolvents on the first `k` of the symbols `syms`, symbol by symbol.
pub open spec fn resolvents_over(cs: Seq<Seq<LiteralModel>>, syms: Seq<Seq<char>>, k: nat) -> Seq<
    Seq<LiteralModel>,
>
    decreases k,
{
    if k == 0 || k > syms.len() {
        Seq::empty()
    } else {
        resolvents_over(cs, syms, (k - 1) as nat) + resolvents_on(cs, syms[k - 1])
    }
}

/// Resolution on every symbol in one pass. Every clause that holds a
/// literal leaves the clause set. What enters is, for every symbol in rank,
/// the resolvent of each clause of the set that holds the symbol positively
/// with each that holds it negatively only. The clauses that hold nothing
/// stay, in front.
pub open spec fn resolved(cs: Seq<Seq<LiteralModel>>) -> Seq<Seq<LiteralModel>> {
    cs.filter(holds_nothing()) + resolvents_over(cs, ranked(cs), ranked(cs).len())
}

/// The symbols of a clause.
pub open spec fn clause_symbols(c: Seq<LiteralModel>, n: nat) -> Set<Seq<char>>
    decreases n,
{
    if n == 0 || n > c.len() {
        Set::empty()
    } else {
        clause_symbols(c, (n - 1) as nat).insert(c[n - 1].symbol())
    }
}

/// The symbols of the first `n` clauses.
pub open spec fn symbols_upto(cs: Seq<Seq<LiteralModel>>, n: nat) -> Set<Seq<char>>
    decreases n,
{
    if n == 0 || n > cs.len() {
        Set::empty()
    } else {
        symbols_upto(cs, (n - 1) as nat).union(clause_symbols(cs[n - 1], cs[n - 1].len()))
    }
}

/// The symbols that occur in the clause set.
pub open spec fn symbols(cs: Seq<Seq<LiteralModel>>) -> Set<Seq<char>> {
    symbols_upto(cs, cs.len())
}

/// The clause set mentions the symbol `s`, with one sign or the other.
pub open spec fn mentions(cs: Seq<Seq<LiteralModel>>, s: Seq<char>) -> bool {
    occurs(cs, LiteralModel::Pos(s)) || occurs(cs, LiteralModel::Neg(s))
}

/// The symbols of the first `n` literals of a clause are finitely many,
/// and they are the symbols of those literals.
pub proof fn lemma_clause_symbols(c: Seq<LiteralModel>, n: nat, s: Seq<char>)
    requires
        n <= c.len(),
    ensures
        clause_symbols(c, n).finite(),
        clause_symbols(c, n).contains(s) <==> exists|j: int|
            0 <= j < n && (#[trigger] c[j]).symbol() == s,
    decreases n,
{
    if n > 0 {
        lemma_clause_symbols(c, (n - 1) as nat, s);
        if clause_symbols(c, n).contains(s) {
            if c[n - 1].symbol() == s {
            } else {
                let j = choose|j: int| 0 <= j < n - 1 && (#[trigger] c[j]).symbol() == s;
                assert(0 <= j < n && c[j].symbol() == s);
            }
        }
    }
}

/// The symbols of the first `n` clauses are finitely many, and they are
/// the symbols that those clauses mention.
pub proof fn lemma_symbols_upto(cs: Seq<Seq<LiteralModel>>, n: nat, s: Seq<char>)
    requires
        n <= cs.len(),
    ensures
        symbols_upto(cs, n).finite(),
        symbols_upto(cs, n).contains(s) <==> mentions(cs.take(n as int), s),
    decreases n,
{
    let pos = LiteralModel::Pos(s);
    let neg = LiteralModel::Neg(s);
    let front = cs.take(n as int);
    if n > 0 {
        let c = cs[n - 1];
        lemma_symbols_upto(cs, (n - 1) as nat, s);
        lemma_clause_symbols(c, c.len(), s);
        let before = cs.take(n - 1);
        if symbols_upto(cs, n).contains(s) {
            if clause_symbols(c, c.len()).contains(s) {
                let j = choose|j: int| 0 <= j < c.len() && (#[trigger] c[j]).symbol() == s;
                assert(c[j] == pos || c[j] == neg);
                assert(front[n - 1] == c);
                assert(c.contains(c[j]));
            } else {
                if occurs(before, pos) {
                    let k = choose|k: int| 0 <= k < before.len() && (#[trigger] before[k]).contains(pos);
                    assert(front[k] == before[k]);
                } else {
                    let k = choose|k: int| 0 <= k < before.len() && (#[trigger] before[k]).contains(neg);
                    assert(front[k] == before[k]);
                }
            }
        }
        if mentions(front, s) {
            let l = if occurs(front, pos) {
                pos
            } else {
                neg
            };
            let k = choose|k: int| 0 <= k < front.len() && (#[trigger] front[k]).contains(l);
            if k < n - 1 {
                assert(before[k] == front[k]);
                assert(occurs(before, l));
            } else {
                let j = choose|j: int| 0 <= j < c.len() && c[j] == l;
                assert(c[j].symbol() == s);
            }
        }
    } else {
    }
}

/// The symbols of a clause set are finitely many, and they are the
/// symbols that it mentions.
pub proof fn lemma_symbols(cs: Seq<Seq<LiteralModel>>)
    ensures
        symbols(cs).finite(),
        forall|s: Seq<char>| symbols(cs).contains(s) <==> mentions(cs, s),
{
    assert(cs.take(cs.len() as int) =~= cs);
    lemma_symbols_upto(cs, cs.len(), Seq::empty());
    assert forall|s: Seq<char>| symbols(cs).contains(s) <==> mentions(cs, s) by {
        lemma_symbols_upto(cs, cs.len(), s);
    }
}

/// A clause set that holds only literals of another and does not mention
/// a symbol of the other has fewer symbols.
pub proof fn lemma_fewer_symbols(cs: Seq<Seq<LiteralModel>>, out: Seq<Seq<LiteralModel>>, s: Seq<char>)
    requires
        forall|l: LiteralModel| occurs(out, l) ==> occurs(cs, l),
        !mentions(out, s),
        mentions(cs, s),
    ensures
        symbols(out).len() < symbols(cs).len(),
        symbols(cs).finite(),
{
    lemma_symbols(cs);
    lemma_symbols(out);
    let smaller = symbols(cs).remove(s);
    assert(symbols(out).subset_of(smaller)) by {
        assert forall|t: Seq<char>| symbols(out).contains(t) implies smaller.contains(t) by {
            assert(mentions(out, t));
            if occurs(out, LiteralModel::Pos(t)) {
                assert(occurs(cs, LiteralModel::Pos(t)));
            } else {
                assert(occurs(cs, LiteralModel::Neg(t)));
            }
            assert(mentions(cs, t));
        }
    }
    lemma_len_subset(symbols(out), smaller);
}

/// The literal of the first unit clause occurs in the clause set.
pub proof fn lemma_unit_occurs(cs: Seq<Seq<LiteralModel>>, i: nat)
    requires
        unit_from(cs, i) is Some,
    ensures
        occurs(cs, unit_from(cs, i)->0),
    decreases cs.len() - i,
{
    if i >= cs.len() {
    } else if cs[i as int].len() == 1 {
        assert(cs[i as int].contains(cs[i as int][0]));
    } else {
        lemma_unit_occurs(cs, i + 1);
    }
}

/// A clause of what a filter keeps is a clause of the list, and it was to
/// be kept.
pub proof fn lemma_filter_elem(cs: Seq<Seq<LiteralModel>>, p: spec_fn(Seq<LiteralModel>) -> bool, k: int)
    requires
        0 <= k < cs.filter(p).len(),
    ensures
        p(cs.filter(p)[k]),
        exists|i: int| 0 <= i < cs.len() && cs[i] == cs.filter(p)[k],
{
    let f = cs.filter(p);
    cs.lemma_filter_pred(p, k);
    assert(f.contains(f[k]));
    cs.lemma_filter_contains_rev(p, f[k]);
    let i = choose|i: int| 0 <= i < cs.len() && cs[i] == f[k];
    assert(0 <= i < cs.len() && cs[i] == f[k]);
}

/// Unit propagation leaves fewer symbols: that of the unit literal is gone.
pub proof fn lemma_propagated_measure(cs: Seq<Seq<LiteralModel>>, u: LiteralModel)
    requires
        occurs(cs, u),
    ensures
        symbols(propagated(cs, u)).len() < symbols(cs).len(),
{
    let kept = cs.filter(lacks(u));
    let out = propagated(cs, u);
    let nu = u.negated();
    assert forall|l: LiteralModel| occurs(out, l) implies occurs(cs, l) && l != u && l != nu by {
        let k = choose|k: int| 0 <= k < out.len() && (#[trigger] out[k]).contains(l);
        assert(out[k] == without_literal(kept[k], nu));
        lemma_filter_contains_iff(kept[k], is_other_than(nu), l);
        lemma_filter_elem(cs, lacks(u), k);
        let i = choose|i: int| 0 <= i < cs.len() && cs[i] == kept[k];
        assert(cs[i].contains(l));
    }
    let s = u.symbol();
    assert(u == LiteralModel::Pos(s) || u == LiteralModel::Neg(s));
    assert(nu == LiteralModel::Pos(s) || nu == LiteralModel::Neg(s));
    assert(mentions(cs, s));
    lemma_fewer_symbols(cs, out, s);
}

/// Pure-literal elimination leaves fewer symbols where it finds a pure
/// literal: its symbol is gone.
pub proof fn lemma_without_pure_measure(cs: Seq<Seq<LiteralModel>>)
    requires
        has_pure(cs),
    ensures
        symbols(without_pure(cs)).len() < symbols(cs).len(),
{
    let out = without_pure(cs);
    let k0 = choose|k: int| 0 <= k < cs.len() && has_pure_literal(cs, #[trigger] cs[k]);
    let j0 = choose|j: int| 0 <= j < cs[k0].len() && !occurs(cs, (#[trigger] cs[k0][j]).negated());
    let p = cs[k0][j0];
    let s = p.symbol();
    assert(cs[k0].contains(p));
    assert(occurs(cs, p));
    assert forall|l: LiteralModel| occurs(out, l) implies occurs(cs, l) && l != p by {
        let k = choose|k: int| 0 <= k < out.len() && (#[trigger] out[k]).contains(l);
        lemma_filter_elem(cs, no_pure_literal(cs), k);
        let i = choose|i: int| 0 <= i < cs.len() && cs[i] == out[k];
        assert(cs[i].contains(l));
        if l == p {
            let j = choose|j: int| 0 <= j < out[k].len() && out[k][j] == l;
            assert(!occurs(cs, out[k][j].negated()));
            assert(has_pure_literal(cs, out[k]));
        }
    }
    assert(p == LiteralModel::Pos(s) || p == LiteralModel::Neg(s));
    assert(p.negated() == LiteralModel::Pos(s) || p.negated() == LiteralModel::Neg(s));
    assert(mentions(cs, s));
    lemma_fewer_symbols(cs, out, s);
}

/// Each of the resolvents is the resolvent of a clause of `pos` and a
/// clause of `neg`.
pub proof fn lemma_resolvents_elem(
    pos: Seq<Seq<LiteralModel>>,
    neg: Seq<Seq<LiteralModel>>,
    k: nat,
    idx: int,
)
    requires
        k <= pos.len(),
        0 <= idx < resolvents(pos, neg, k).len(),
    ensures
        exists|a: int, b: int|
            0 <= a < k && 0 <= b < neg.len() && resolvents(pos, neg, k)[idx] == resolvent(
                #[trigger] pos[a],
                #[trigger] neg[b],
            ),
    decreases k,
{
    if k > 0 {
        let before = resolvents(pos, neg, (k - 1) as nat);
        if idx < before.len() {
            lemma_resolvents_elem(pos, neg, (k - 1) as nat, idx);
            let (a, b) = choose|a: int, b: int|
                0 <= a < k - 1 && 0 <= b < neg.len() && before[idx] == resolvent(
                    #[trigger] pos[a],
                    #[trigger] neg[b],
                );
            assert(0 <= a < k && 0 <= b < neg.len() && resolvents(pos, neg, k)[idx] == resolvent(
                pos[a],
                neg[b],
            ));
        } else {
            let b = idx - before.len();
            assert(resolvents(pos, neg, k)[idx] == resolvent(pos[k - 1], neg[b]));
        }
    }
}

/// The best symbol, where there is one, is the best so far or the symbol
/// of one of the literals, and no symbol that is done with unless the best
/// so far was; where there is none, there was none so far and every literal
/// has a symbol that is done with.
pub proof fn lemma_best_in_clause(
    cs: Seq<Seq<LiteralModel>>,
    c: Seq<LiteralModel>,
    n: nat,
    best: Option<Seq<char>>,
    done: Seq<Seq<char>>,
)
    requires
        n <= c.len(),
    ensures
        best_in_clause(cs, c, n, best, done) is None ==> best is None && forall|j: int|
            0 <= j < n ==> done.contains((#[trigger] c[j]).symbol()),
        best_in_clause(cs, c, n, best, done) is Some ==> best_in_clause(cs, c, n, best, done)
            == best || exists|j: int|
            0 <= j < n && (#[trigger] c[j]).symbol() == best_in_clause(cs, c, n, best, done)->0
                && !done.contains(c[j].symbol()),
        best is Some ==> best_in_clause(cs, c, n, best, done) is Some,
    decreases n,
{
    if n > 0 {
        lemma_best_in_clause(cs, c, (n - 1) as nat, best, done);
        let before = best_in_clause(cs, c, (n - 1) as nat, best, done);
        let after = best_in_clause(cs, c, n, best, done);
        if after is Some {
            if after == before {
                if after != best {
                    let j = choose|j: int|
                        0 <= j < n - 1 && (#[trigger] c[j]).symbol() == after->0 && !done.contains(
                            c[j].symbol(),
                        );
                    assert(0 <= j < n && c[j].symbol() == after->0 && !done.contains(c[j].symbol()));
                }
            } else {
                assert(c[n - 1].symbol() == after->0 && !done.contains(c[n - 1].symbol()));
            }
        } else {
            assert forall|j: int| 0 <= j < n implies done.contains((#[trigger] c[j]).symbol()) by {
                if j == n - 1 {
                } else {
                    assert(done.contains(c[j].symbol()));
                }
            }
        }
    }
}

/// The best symbol of the first `n` clauses is mentioned by the clause
/// set and not done with; where there is none, every literal of these
/// clauses has a symbol that is done with.
pub proof fn lemma_best_symbol(cs: Seq<Seq<LiteralModel>>, n: nat, done: Seq<Seq<char>>)
    requires
        n <= cs.len(),
    ensures
        best_symbol(cs, n, done) is Some ==> mentions(cs, best_symbol(cs, n, done)->0)
            && !done.contains(best_symbol(cs, n, done)->0),
        best_symbol(cs, n, done) is None ==> forall|k: int, j: int|
            0 <= k < n && 0 <= j < cs[k].len() ==> done.contains((#[trigger] cs[k][j]).symbol()),
    decreases n,
{
    if n > 0 {
        lemma_best_symbol(cs, (n - 1) as nat, done);
        let c = cs[n - 1];
        let before = best_symbol(cs, (n - 1) as nat, done);
        lemma_best_in_clause(cs, c, c.len(), before, done);
        let after = best_symbol(cs, n, done);
        if after is Some && after != before {
            let j = choose|j: int|
                0 <= j < c.len() && (#[trigger] c[j]).symbol() == after->0 && !done.contains(
                    c[j].symbol(),
                );
            let s = after->0;
            assert(c[j] == LiteralModel::Pos(s) || c[j] == LiteralModel::Neg(s));
            assert(cs[n - 1].contains(c[j]));
        }
        if after is None {
            assert forall|k: int, j: int| 0 <= k < n && 0 <= j < cs[k].len() implies done.contains(
                (#[trigger] cs[k][j]).symbol(),
            ) by {
                let l = cs[k][j];
                if k == n - 1 {
                    assert(c[j] == l);
                }
            }
        }
    }
}

/// The next symbol is a symbol of the clause set that is not done with, so
/// that fewer symbols are left once it is done with too.
pub proof fn lemma_next_symbol_left(cs: Seq<Seq<LiteralModel>>, done: Seq<Seq<char>>)
    requires
        next_symbol(cs, done) is Some,
    ensures
        symbols(cs).contains(next_symbol(cs, done)->0),
        !done.contains(next_symbol(cs, done)->0),
        symbols(cs).difference(done.push(next_symbol(cs, done)->0).to_set()).len() < symbols(
            cs,
        ).difference(done.to_set()).len(),
{
    let s = next_symbol(cs, done)->0;
    lemma_best_symbol(cs, cs.len(), done);
    lemma_symbols(cs);
    let left = symbols(cs).difference(done.to_set());
    let after = symbols(cs).difference(done.push(s).to_set());
    done.lemma_push_to_set_commute(s);
    assert(left.contains(s));
    assert(after =~= left.remove(s));
}

/// A clause set that is not empty and holds no empty clause has a symbol
/// that comes next, whatever is done with: unless all its symbols are.
pub proof fn lemma_next_symbol_first(cs: Seq<Seq<LiteralModel>>)
    requires
        cs.len() > 0,
        !has_empty_clause(cs),
    ensures
        next_symbol(cs, Seq::empty()) is Some,
        ranked(cs).len() > 0,
{
    let none = Seq::<Seq<char>>::empty();
    lemma_best_symbol(cs, cs.len(), none);
    if next_symbol(cs, none) is None {
        assert(cs[0].len() != 0);
        assert(none.contains(cs[0][0].symbol()));
    }
    lemma_next_symbol_left(cs, none);
    lemma_ranked_from(cs, none.push(next_symbol(cs, none)->0));
}

/// The symbols in rank behind those that are done with begin with those
/// that are done with.
pub proof fn lemma_ranked_from(cs: Seq<Seq<LiteralModel>>, done: Seq<Seq<char>>)
    ensures
        ranked_from(cs, done).len() >= done.len(),
        ranked_from(cs, done).subrange(0, done.len() as int) == done,
    decreases symbols(cs).difference(done.to_set()).len(),
{
    match next_symbol(cs, done) {
        Some(s) => {
            lemma_next_symbol_left(cs, done);
            lemma_ranked_from(cs, done.push(s));
            assert(ranked_from(cs, done).subrange(0, done.len() as int) =~= done) by {
                let r = ranked_from(cs, done);
                let d = done.push(s);
                assert(r.subrange(0, d.len() as int) == d);
                assert forall|i: int| 0 <= i < done.len() implies r[i] == done[i] by {
                    assert(r.subrange(0, d.len() as int)[i] == d[i]);
                }
            }
        },
        None => {
            assert(done.subrange(0, done.len() as int) =~= done);
        },
    }
}

/// The order of names is a strict total order: of two names that differ
/// one comes before the other, and not the other way round as well.
pub proof fn lemma_name_order(a: Seq<char>, b: Seq<char>, i: nat)
    requires
        i <= a.len(),
        i <= b.len(),
        forall|j: int| 0 <= j < i ==> a[j] == b[j],
    ensures
        a == b || name_before_from(a, b, i) || name_before_from(b, a, i),
        !(name_before_from(a, b, i) && name_before_from(b, a, i)),
        a == b ==> !name_before_from(a, b, i),
    decreases a.len() - i,
{
    if i >= b.len() {
        if i >= a.len() {
            assert(a =~= b);
        }
    } else if i >= a.len() {
    } else if a[i as int] < b[i as int] {
    } else if b[i as int] < a[i as int] {
    } else {
        lemma_name_order(a, b, i + 1);
    }
}

/// The order of names is transitive.
pub proof fn lemma_name_order_transitive(a: Seq<char>, b: Seq<char>, c: Seq<char>, i: nat)
    requires
        i <= a.len(),
        i <= b.len(),
        i <= c.len(),
        name_before_from(a, b, i),
        name_before_from(b, c, i),
    ensures
        name_before_from(a, c, i),
    decreases a.len() - i,
{
    if i >= a.len() {
    } else if a[i as int] < b[i as int] {
    } else if b[i as int] < c[i as int] {
    } else {
        lemma_name_order_transitive(a, b, c, i + 1);
    }
}

/// One symbol leads another: it is the same, or it stands before it in rank.
pub open spec fn leads(cs: Seq<Seq<LiteralModel>>, a: Seq<char>, b: Seq<char>) -> bool {
    a == b || precedes(cs, a, b)
}

/// The rank of symbols is a strict total order: of two symbols that
/// differ one stands before the other, and not the other way round as
/// well; and it is transitive.
pub proof fn lemma_rank_order(cs: Seq<Seq<LiteralModel>>, a: Seq<char>, b: Seq<char>, c: Seq<char>)
    ensures
        a == b || precedes(cs, a, b) || precedes(cs, b, a),
        !(precedes(cs, a, b) && precedes(cs, b, a)),
        !precedes(cs, a, a),
        precedes(cs, a, b) && precedes(cs, b, c) ==> precedes(cs, a, c),
        leads(cs, a, b) && leads(cs, b, c) ==> leads(cs, a, c),
{
    lemma_name_order(a, b, 0);
    lemma_name_order(a, a, 0);
    if name_before(a, b) && name_before(b, c) {
        lemma_name_order_transitive(a, b, c, 0);
    }
}

/// After the first `n` literals of a clause, the best symbol leads the
/// best before and the symbol of each of these literals that is not done
/// with.
pub proof fn lemma_best_in_clause_leads(
    cs: Seq<Seq<LiteralModel>>,
    c: Seq<LiteralModel>,
    n: nat,
    best: Option<Seq<char>>,
    done: Seq<Seq<char>>,
)
    requires
        n <= c.len(),
    ensures
        best is Some ==> best_in_clause(cs, c, n, best, done) is Some && leads(
            cs,
            best_in_clause(cs, c, n, best, done)->0,
            best->0,
        ),
        forall|j: int|
            0 <= j < n && !done.contains((#[trigger] c[j]).symbol()) ==> best_in_clause(
                cs,
                c,
                n,
                best,
                done,
            ) is Some && leads(cs, best_in_clause(cs, c, n, best, done)->0, c[j].symbol()),
    decreases n,
{
    if n > 0 {
        lemma_best_in_clause_leads(cs, c, (n - 1) as nat, best, done);
        let before = best_in_clause(cs, c, (n - 1) as nat, best, done);
        let after = best_in_clause(cs, c, n, best, done);
        let cand = c[n - 1].symbol();
        if !done.contains(cand) && before is Some {
            lemma_rank_order(cs, cand, before->0, cand);
            if best is Some {
                lemma_rank_order(cs, after->0, before->0, best->0);
            }
        }
        assert forall|j: int| 0 <= j < n && !done.contains((#[trigger] c[j]).symbol()) implies after is Some
            && leads(cs, after->0, c[j].symbol()) by {
            if j < n - 1 {
                assert(before is Some && leads(cs, before->0, c[j].symbol()));
                lemma_rank_order(cs, after->0, before->0, c[j].symbol());
            }
        }
    }
}

/// The best symbol of the first `n` clauses leads the symbol of every
/// literal of these clauses that is not done with.
pub proof fn lemma_best_symbol_leads(cs: Seq<Seq<LiteralModel>>, n: nat, done: Seq<Seq<char>>)
    requires
        n <= cs.len(),
    ensures
        forall|k: int, j: int|
            0 <= k < n && 0 <= j < cs[k].len() && !done.contains((#[trigger] cs[k][j]).symbol())
                ==> best_symbol(cs, n, done) is Some && leads(
                cs,
                best_symbol(cs, n, done)->0,
                cs[k][j].symbol(),
            ),
    decreases n,
{
    if n > 0 {
        lemma_best_symbol_leads(cs, (n - 1) as nat, done);
        let c = cs[n - 1];
        let before = best_symbol(cs, (n - 1) as nat, done);
        let after = best_symbol(cs, n, done);
        lemma_best_in_clause_leads(cs, c, c.len(), before, done);
        assert forall|k: int, j: int|
            0 <= k < n && 0 <= j < cs[k].len() && !done.contains(
                (#[trigger] cs[k][j]).symbol(),
            ) implies after is Some && leads(cs, after->0, cs[k][j].symbol()) by {
            let l = cs[k][j];
            if k < n - 1 {
                assert(before is Some && leads(cs, before->0, l.symbol()));
                lemma_rank_order(cs, after->0, before->0, l.symbol());
            } else {
                assert(c[j] == l);
            }
        }
    }
}

/// The next symbol leads every symbol of the clause set that is not done
/// with: none of them occurs more often, and none that occurs as often has
/// a name that comes first.
pub proof fn lemma_next_symbol_leads(cs: Seq<Seq<LiteralModel>>, done: Seq<Seq<char>>, t: Seq<char>)
    requires
        mentions(cs, t),
        !done.contains(t),
    ensures
        next_symbol(cs, done) is Some,
        leads(cs, next_symbol(cs, done)->0, t),
{
    lemma_best_symbol_leads(cs, cs.len(), done);
    let l = if occurs(cs, LiteralModel::Pos(t)) {
        LiteralModel::Pos(t)
    } else {
        LiteralModel::Neg(t)
    };
    let k = choose|k: int| 0 <= k < cs.len() && (#[trigger] cs[k]).contains(l);
    let j = choose|j: int| 0 <= j < cs[k].len() && cs[k][j] == l;
    assert(cs[k][j].symbol() == t);
}

/// The symbols `done` are in rank: each is a symbol of the clause set, none
/// is there twice, each stands before those behind it, and each stands
/// before every symbol of the clause set that is not among them.
pub open spec fn in_rank(cs: Seq<Seq<LiteralModel>>, done: Seq<Seq<char>>) -> bool {
    &&& done.no_duplicates()
    &&& forall|i: int| 0 <= i < done.len() ==> mentions(cs, #[trigger] done[i])
    &&& forall|i: int, j: int|
        0 <= i < j < done.len() ==> #[trigger] precedes(cs, done[i], done[j])
    &&& forall|i: int, t: Seq<char>|
        0 <= i < done.len() && mentions(cs, t) && !done.contains(t) ==> #[trigger] precedes(
            cs,
            done[i],
            t,
        )
}

/// Symbols in rank stay in rank when the next symbol comes behind them.
pub proof fn lemma_in_rank_next(cs: Seq<Seq<LiteralModel>>, done: Seq<Seq<char>>)
    requires
        in_rank(cs, done),
        next_symbol(cs, done) is Some,
    ensures
        in_rank(cs, done.push(next_symbol(cs, done)->0)),
{
    let s = next_symbol(cs, done)->0;
    let more = done.push(s);
    lemma_best_symbol(cs, cs.len(), done);
    assert(more.no_duplicates()) by {
        assert forall|i: int, j: int| 0 <= i < more.len() && 0 <= j < more.len() && i != j implies more[i]
            != more[j] by {
            if i < done.len() && j < done.len() {
            } else if i < done.len() {
                assert(done.contains(done[i]));
            } else {
                assert(done.contains(done[j]));
            }
        }
    }
    assert forall|i: int| 0 <= i < more.len() implies mentions(cs, #[trigger] more[i]) by {
        if i < done.len() {
            assert(more[i] == done[i]);
        }
    }
    assert forall|i: int, j: int| 0 <= i < j < more.len() implies #[trigger] precedes(
        cs,
        more[i],
        more[j],
    ) by {
        if j < done.len() {
            assert(precedes(cs, done[i], done[j]));
        } else {
            assert(precedes(cs, done[i], s));
        }
    }
    assert forall|i: int, t: Seq<char>|
        0 <= i < more.len() && mentions(cs, t) && !more.contains(t) implies #[trigger] precedes(
        cs,
        more[i],
        t,
    ) by {
        assert(!done.contains(t)) by {
            if done.contains(t) {
                let j = choose|j: int| 0 <= j < done.len() && done[j] == t;
                assert(more[j] == t);
            }
        }
        assert(t != s) by {
            assert(more[done.len() as int] == s);
        }
        if i < done.len() {
            assert(precedes(cs, done[i], t));
        } else {
            lemma_next_symbol_leads(cs, done, t);
        }
    }
}

/// The symbols in rank behind symbols in rank are in rank, and every
/// symbol of the clause set is among them.
pub proof fn lemma_ranked_from_in_rank(cs: Seq<Seq<LiteralModel>>, done: Seq<Seq<char>>)
    requires
        in_rank(cs, done),
    ensures
        in_rank(cs, ranked_from(cs, done)),
        forall|t: Seq<char>| mentions(cs, t) ==> ranked_from(cs, done).contains(t),
    decreases symbols(cs).difference(done.to_set()).len(),
{
    match next_symbol(cs, done) {
        Some(s) => {
            lemma_next_symbol_left(cs, done);
            lemma_in_rank_next(cs, done);
            lemma_ranked_from_in_rank(cs, done.push(s));
        },
        None => {
            assert forall|t: Seq<char>| mentions(cs, t) implies done.contains(t) by {
                if !done.contains(t) {
                    lemma_next_symbol_leads(cs, done, t);
                }
            }
        },
    }
}

/// The ranking is what it is called: the symbols of the clause set, each
/// once, the more frequent in front of the less frequent, and among those
/// that occur equally often the one whose name comes first in front.
pub proof fn lemma_ranked(cs: Seq<Seq<LiteralModel>>)
    ensures
        ranked(cs).no_duplicates(),
        forall|t: Seq<char>| ranked(cs).contains(t) <==> mentions(cs, t),
        forall|i: int, j: int|
            0 <= i < j < ranked(cs).len() ==> #[trigger] precedes(cs, ranked(cs)[i], ranked(cs)[j]),
{
    let none = Seq::<Seq<char>>::empty();
    assert(in_rank(cs, none));
    lemma_ranked_from_in_rank(cs, none);
    let r = ranked(cs);
    assert forall|t: Seq<char>| r.contains(t) implies mentions(cs, t) by {
        let i = choose|i: int| 0 <= i < r.len() && r[i] == t;
        assert(mentions(cs, r[i]));
    }
    assert forall|i: int, j: int| 0 <= i < j < r.len() implies #[trigger] precedes(
        cs,
        r[i],
        r[j],
    ) by {
        assert(in_rank(cs, r));
    }
}

/// Each of the resolvents on the first `k` symbols is the resolvent of a
/// clause of the clause set that holds one of these symbols positively and
/// a clause of the clause set that holds it negatively.
pub proof fn lemma_resolvents_over_elem(
    cs: Seq<Seq<LiteralModel>>,
    syms: Seq<Seq<char>>,
    k: nat,
    idx: int,
)
    requires
        k <= syms.len(),
        0 <= idx < resolvents_over(cs, syms, k).len(),
    ensures
        exists|i: int, j: int, m: int|
            0 <= i < cs.len() && 0 <= j < cs.len() && 0 <= m < k && (#[trigger] cs[i]).contains(
                LiteralModel::Pos(#[trigger] syms[m]),
            ) && (#[trigger] cs[j]).contains(LiteralModel::Neg(syms[m])) && resolvents_over(
                cs,
                syms,
                k,
            )[idx] == resolvent(cs[i], cs[j]),
    decreases k,
{
    if k > 0 {
        let before = resolvents_over(cs, syms, (k - 1) as nat);
        let all = resolvents_over(cs, syms, k);
        if idx < before.len() {
            lemma_resolvents_over_elem(cs, syms, (k - 1) as nat, idx);
            let (i, j, m) = choose|i: int, j: int, m: int|
                0 <= i < cs.len() && 0 <= j < cs.len() && 0 <= m < k - 1 && (#[trigger] cs[i]).contains(
                    LiteralModel::Pos(#[trigger] syms[m]),
                ) && (#[trigger] cs[j]).contains(LiteralModel::Neg(syms[m])) && before[idx]
                    == resolvent(cs[i], cs[j]);
            assert(0 <= i < cs.len() && 0 <= j < cs.len() && 0 <= m < k && cs[i].contains(
                LiteralModel::Pos(syms[m]),
            ) && cs[j].contains(LiteralModel::Neg(syms[m])) && all[idx] == resolvent(cs[i], cs[j]));
        } else {
            let s = syms[k - 1];
            let pos = cs.filter(in_pos(s));
            let neg = cs.filter(in_neg(s));
            let on = resolvents_on(cs, s);
            let at = idx - before.len();
            assert(all[idx] == on[at]);
            lemma_resolvents_elem(pos, neg, pos.len(), at);
            let (a, b) = choose|a: int, b: int|
                0 <= a < pos.len() && 0 <= b < neg.len() && on[at] == resolvent(
                    #[trigger] pos[a],
                    #[trigger] neg[b],
                );
            lemma_filter_elem(cs, in_pos(s), a);
            lemma_filter_elem(cs, in_neg(s), b);
            let i = choose|i: int| 0 <= i < cs.len() && cs[i] == pos[a];
            let j = choose|j: int| 0 <= j < cs.len() && cs[j] == neg[b];
            let m = k - 1;
            assert(0 <= i < cs.len() && 0 <= j < cs.len() && 0 <= m < k && cs[i].contains(
                LiteralModel::Pos(syms[m]),
            ) && cs[j].contains(LiteralModel::Neg(syms[m])) && all[idx] == resolvent(cs[i], cs[j]));
        }
    }
}

/// What resolution leaves: each clause of it is an empty clause of the
/// clause set, or the resolvent of a clause of the clause set that holds
/// some symbol positively and one that holds it negatively. Of a clause
/// set without empty clause it leaves resolvents only.
pub proof fn lemma_resolved_elem(cs: Seq<Seq<LiteralModel>>, idx: int)
    requires
        0 <= idx < resolved(cs).len(),
    ensures
        (has_empty_clause(cs) && resolved(cs)[idx].len() == 0) || exists|i: int, j: int, m: int|
            0 <= i < cs.len() && 0 <= j < cs.len() && 0 <= m < ranked(cs).len()
                && (#[trigger] cs[i]).contains(LiteralModel::Pos(#[trigger] ranked(cs)[m]))
                && (#[trigger] cs[j]).contains(LiteralModel::Neg(ranked(cs)[m])) && resolved(
                cs,
            )[idx] == resolvent(cs[i], cs[j]),
{
    let kept = cs.filter(holds_nothing());
    if idx < kept.len() {
        lemma_filter_elem(cs, holds_nothing(), idx);
        let i = choose|i: int| 0 <= i < cs.len() && cs[i] == kept[idx];
        assert(cs[i].len() == 0);
    } else {
        lemma_resolvents_over_elem(cs, ranked(cs), ranked(cs).len(), idx - kept.len());
    }
}

/// A resolvent holds no complementary pair, and no literal twice if the
/// two clauses hold none twice.
pub proof fn lemma_resolvent_clean(p: Seq<LiteralModel>, n: Seq<LiteralModel>, l: LiteralModel)
    ensures
        !(resolvent(p, n).contains(l) && resolvent(p, n).contains(l.negated())),
        p.no_duplicates() && n.no_duplicates() ==> resolvent(p, n).no_duplicates(),
{
    let u = union_of(p, n);
    lemma_filter_contains_iff(u, has_no_complement_in(u), l);
    lemma_filter_contains_iff(u, has_no_complement_in(u), l.negated());
    if p.no_duplicates() && n.no_duplicates() {
        lemma_union_no_duplicates(p, n);
        lemma_filter_no_duplicates(u, has_no_complement_in(u));
    }
}

/// The Davis-Putnam procedure with at most `passes` passes of resolution.
/// The empty clause set is satisfiable; one with an empty clause is not.
/// Otherwise the first rule that applies is applied, and the procedure
/// goes on with what it gives: unit propagation with the first unit
/// clause; pure-literal elimination; resolution on every symbol. Where
/// only resolution applies and no pass is left, the clause set is taken to
/// be satisfiable.
pub open spec fn dp_within(cs: Seq<Seq<LiteralModel>>, passes: nat) -> bool
    decreases passes, symbols(cs).len(),
{
    if cs.len() == 0 {
        true
    } else if has_empty_clause(cs) {
        false
    } else if first_unit(cs) is Some {
        let u = first_unit(cs)->0;
        proof {
            lemma_unit_occurs(cs, 0);
            lemma_propagated_measure(cs, u);
        }
        dp_within(propagated(cs, u), passes)
    } else if has_pure(cs) {
        proof {
            lemma_without_pure_measure(cs);
        }
        dp_within(without_pure(cs), passes)
    } else if passes == 0 {
        true
    } else {
        dp_within(resolved(cs), (passes - 1) as nat)
    }
}

/// The Davis-Putnam procedure. Resolution may go on for ever, the clause
/// set coming back to what it was; so the procedure resolves at most as
/// often as the clause set has symbols.
pub open spec fn dp(cs: Seq<Seq<LiteralModel>>) -> bool {
    dp_within(cs, ranked(cs).len())
}

/// Whether some clause of the clause set holds the literal.
pub fn occurs_in(clauses: &Clauses, l: &Literal) -> (b: bool)
    ensures
        b == occurs(clauses@, l@),
{
    let mut k: usize = 0;
    while k < clauses.0.len()
        invariant
            k <= clauses.0.len(),
            forall|i: int| 0 <= i < k ==> !(#[trigger] clauses@[i]).contains(l@),
        decreases clauses.0.len() - k,
    {
        if clauses.0[k].contains(l) {
            assert(clauses@[k as int].contains(l@));
            return true;
        }
        k += 1;
    }
    false
}

/// Whether the clause holds a literal whose negation occurs nowhere in
/// the clause set.
pub fn holds_pure_literal(clauses: &Clauses, clause: &Clause) -> (b: bool)
    ensures
        b == has_pure_literal(clauses@, clause@),
{
    let mut j: usize = 0;
    while j < clause.0.len()
        invariant
            j <= clause.0.len(),
            forall|i: int| 0 <= i < j ==> occurs(clauses@, (#[trigger] clause@[i]).negated()),
        decreases clause.0.len() - j,
    {
        let opposite = clause.0[j].negate();
        if !occurs_in(clauses, &opposite) {
            assert(!occurs(clauses@, clause@[j as int].negated()));
            return true;
        }
        j += 1;
    }
    false
}

/// Whether the clause set holds an empty clause.
pub fn holds_empty_clause(clauses: &Clauses) -> (b: bool)
    ensures
        b == has_empty_clause(clauses@),
{
    let mut k: usize = 0;
    while k < clauses.0.len()
        invariant
            k <= clauses.0.len(),
            forall|i: int| 0 <= i < k ==> (#[trigger] clauses@[i]).len() != 0,
        decreases clauses.0.len() - k,
    {
        if clauses.0[k].is_empty() {
            assert(clauses@[k as int].len() == 0);
            return true;
        }
        k += 1;
    }
    false
}

/// The literal of the first unit clause, if there is one.
pub fn find_unit(clauses: &Clauses) -> (unit: Option<Literal>)
    ensures
        match unit {
            Some(u) => first_unit(clauses@) == Some(u@),
            None => first_unit(clauses@) is None,
        },
{
    let mut i: usize = 0;
    while i < clauses.0.len()
        invariant
            i <= clauses.0.len(),
            first_unit(clauses@) == unit_from(clauses@, i as nat),
        decreases clauses.0.len() - i,
    {
        if clauses.0[i].len() == 1 {
            let u = clauses.0[i].0[0].clone();
            assert(u@ == clauses@[i as int][0]);
            return Some(u);
        }
        i += 1;
    }
    None
}

/// Unit propagation. With the literal `L` of the first unit clause, every
/// clause that holds `L` is deleted, and the negation of `L` is taken out
/// of the others. Without a unit clause the clause set comes back as it was.
pub fn unit_propagation_rule(clauses: Clauses) -> (r: Result<Clauses, Clauses>)
    ensures
        match r {
            Ok(out) => first_unit(clauses@) is Some && out@ == propagated(
                clauses@,
                first_unit(clauses@)->0,
            ) && (clauses.well_formed() ==> out.well_formed()),
            Err(out) => first_unit(clauses@) is None && out@ == clauses@,
        },
{
    match find_unit(&clauses) {
        Some(unit) => {
            let neg = unit.negate();
            let ghost keep = lacks(unit@);
            let ghost strip = drops(neg@);
            let mut out = Clauses::new();
            let mut i: usize = 0;
            assert(clauses@.take(0).filter(keep) =~= Seq::<Seq<LiteralModel>>::empty()) by {
                reveal(Seq::filter);
            }
            assert(out@ =~= clauses@.take(0).filter(keep).map_values(strip));
            while i < clauses.0.len()
                invariant
                    i <= clauses.0.len(),
                    keep == lacks(unit@),
                    strip == drops(neg@),
                    out@ == clauses@.take(i as int).filter(keep).map_values(strip),
                    clauses.well_formed() ==> out.well_formed(),
                decreases clauses.0.len() - i,
            {
                let ghost before = out@;
                let ghost front = clauses@.take(i as int);
                proof {
                    clauses@.lemma_take_succ_push(i as int);
                    front.lemma_filter_push(clauses@[i as int], keep);
                }
                if !clauses.0[i].contains(&unit) {
                    let mut clause = clauses.0[i].clone();
                    clause.remove(&neg);
                    proof {
                        assert(clauses.well_formed() ==> clauses@[i as int].no_duplicates());
                    }
                    out.push(clause);
                    assert(out@ =~= clauses@.take(i + 1).filter(keep).map_values(strip));
                }
                i += 1;
            }
            assert(clauses@.take(clauses.0.len() as int) =~= clauses@);
            Ok(out)
        },
        None => Err(clauses),
    }
}

/// Pure-literal elimination. Every clause that holds a pure literal, one
/// whose symbol occurs with one sign only, is deleted. Without a pure
/// literal the clause set comes back as it was.
pub fn affirmative_negative_rule(clauses: Clauses) -> (r: Result<Clauses, Clauses>)
    ensures
        match r {
            Ok(out) => has_pure(clauses@) && out@ == without_pure(clauses@) && (
            clauses.well_formed() ==> out.well_formed()),
            Err(out) => !has_pure(clauses@) && out@ == clauses@,
        },
{
    let ghost keep = no_pure_literal(clauses@);
    let mut out = Clauses::new();
    let mut found = false;
    let mut i: usize = 0;
    assert(clauses@.take(0).filter(keep) =~= Seq::<Seq<LiteralModel>>::empty()) by {
        reveal(Seq::filter);
    }
    while i < clauses.0.len()
        invariant
            i <= clauses.0.len(),
            keep == no_pure_literal(clauses@),
            out@ == clauses@.take(i as int).filter(keep),
            found == exists|k: int| 0 <= k < i && has_pure_literal(clauses@, #[trigger] clauses@[k]),
            clauses.well_formed() ==> out.well_formed(),
        decreases clauses.0.len() - i,
    {
        proof {
            clauses@.lemma_take_succ_push(i as int);
            clauses@.take(i as int).lemma_filter_push(clauses@[i as int], keep);
        }
        if holds_pure_literal(&clauses, &clauses.0[i]) {
            found = true;
        } else {
            proof {
                assert(clauses.well_formed() ==> clauses@[i as int].no_duplicates());
            }
            out.push(clauses.0[i].clone());
        }
        i += 1;
    }
    assert(clauses@.take(clauses.0.len() as int) =~= clauses@);
    if found {
        Ok(out)
    } else {
        Err(clauses)
    }
}

/// How often the symbol occurs in the clause.
pub fn count_in_clause(clause: &Clause, symbol: &str) -> (n: usize)
    ensures
        n == clause@.filter(has_symbol(symbol@)).len(),
{
    let ghost p = has_symbol(symbol@);
    let mut n: usize = 0;
    let mut j: usize = 0;
    assert(clause@.take(0).filter(p) =~= Seq::<LiteralModel>::empty()) by {
        reveal(Seq::filter);
    }
    while j < clause.0.len()
        invariant
            j <= clause.0.len(),
            p == has_symbol(symbol@),
            n == clause@.take(j as int).filter(p).len(),
            n <= j,
        decreases clause.0.len() - j,
    {
        proof {
            clause@.lemma_take_succ_push(j as int);
            clause@.take(j as int).lemma_filter_push(clause@[j as int], p);
        }
        if same_text(clause.0[j].var_name(), symbol) {
            n += 1;
        }
        j += 1;
    }
    assert(clause@.take(clause.0.len() as int) =~= clause@);
    n
}

/// How often the symbol occurs in the clause set.
pub fn count_symbol(clauses: &Clauses, symbol: &str) -> (n: u128)
    ensures
        n == occurrences_of(clauses@, symbol@),
{
    let mut n: u128 = 0;
    let mut k: usize = 0;
    while k < clauses.0.len()
        invariant
            k <= clauses.0.len(),
            n == symbol_count(clauses@, k as nat, symbol@),
            n <= k * usize::MAX,
        decreases clauses.0.len() - k,
    {
        let c = count_in_clause(&clauses.0[k], symbol);
        assert(k * usize::MAX + c <= (k + 1) * usize::MAX) by (nonlinear_arith)
            requires
                c <= usize::MAX,
        ;
        assert((k + 1) * usize::MAX <= u128::MAX) by (nonlinear_arith)
            requires
                k + 1 <= usize::MAX,
                usize::MAX <= 0xffff_ffff_ffff_ffff,
                u128::MAX == 0xffff_ffff_ffff_ffff_ffff_ffff_ffff_ffff,
        ;
        n = n + c as u128;
        k += 1;
    }
    n
}

/// Whether the name `a` comes before the name `b`.
pub fn comes_before(a: &str, b: &str) -> (before: bool)
    ensures
        before == name_before(a@, b@),
{
    let n = a.unicode_len();
    let m = b.unicode_len();
    let mut i: usize = 0;
    loop
        invariant
            i <= n,
            i <= m,
            n == a@.len(),
            m == b@.len(),
            name_before(a@, b@) == name_before_from(a@, b@, i as nat),
        decreases n - i,
    {
        if i >= m {
            return false;
        }
        if i >= n {
            return true;
        }
        let x = a.get_char(i);
        let y = b.get_char(i);
        if x < y {
            return true;
        }
        if y < x {
            return false;
        }
        i += 1;
    }
}

/// Whether the list holds the name.
pub fn holds_name(names: &Vec<String>, name: &str) -> (b: bool)
    ensures
        b == texts_view(*names).contains(name@),
{
    let mut i: usize = 0;
    while i < names.len()
        invariant
            i <= names.len(),
            forall|j: int| 0 <= j < i ==> texts_view(*names)[j] != name@,
        decreases names.len() - i,
    {
        if same_text(names[i].as_str(), name) {
            assert(texts_view(*names)[i as int] == name@);
            return true;
        }
        i += 1;
    }
    false
}

/// The symbol of the clause set that comes next in rank after those that
/// are done with: the one that occurs most often, and among those that
/// occur equally often the one whose name comes first.
pub fn choose_symbol(clauses: &Clauses, done: &Vec<String>) -> (chosen: Option<String>)
    ensures
        match chosen {
            Some(s) => next_symbol(clauses@, texts_view(*done)) == Some(s@),
            None => next_symbol(clauses@, texts_view(*done)) is None,
        },
{
    let ghost skip = texts_view(*done);
    let mut best: Option<String> = None;
    let mut best_count: u128 = 0;
    let mut k: usize = 0;
    while k < clauses.0.len()
        invariant
            k <= clauses.0.len(),
            skip == texts_view(*done),
            match best {
                Some(s) => best_symbol(clauses@, k as nat, skip) == Some(s@) && best_count
                    == occurrences_of(clauses@, s@),
                None => best_symbol(clauses@, k as nat, skip) is None,
            },
        decreases clauses.0.len() - k,
    {
        let clause = &clauses.0[k];
        let ghost start = best_symbol(clauses@, k as nat, skip);
        let mut j: usize = 0;
        while j < clause.0.len()
            invariant
                j <= clause.0.len(),
                k < clauses.0.len(),
                *clause == clauses.0[k as int],
                skip == texts_view(*done),
                start == best_symbol(clauses@, k as nat, skip),
                match best {
                    Some(s) => best_in_clause(clauses@, clause@, j as nat, start, skip) == Some(s@)
                        && best_count == occurrences_of(clauses@, s@),
                    None => best_in_clause(clauses@, clause@, j as nat, start, skip) is None,
                },
            decreases clause.0.len() - j,
        {
            let name = clause.0[j].var_name();
            if !holds_name(done, name) {
                let count = count_symbol(clauses, name);
                let replace = match &best {
                    None => true,
                    Some(b) => count > best_count || (count == best_count && comes_before(
                        name,
                        b.as_str(),
                    )),
                };
                if replace {
                    best = Some(String::from_str(name));
                    best_count = count;
                }
            }
            j += 1;
        }
        k += 1;
    }
    best
}

/// The symbols of the clause set, each once, in rank: by frequency, the
/// most frequent first, and by name among those that occur equally often.
pub fn rank_symbols(clauses: &Clauses) -> (syms: Vec<String>)
    ensures
        texts_view(syms) == ranked(clauses@),
{
    let mut done: Vec<String> = Vec::new();
    assert(texts_view(done) =~= Seq::<Seq<char>>::empty());
    loop
        invariant
            ranked(clauses@) == ranked_from(clauses@, texts_view(done)),
        decreases symbols(clauses@).difference(texts_view(done).to_set()).len(),
    {
        match choose_symbol(clauses, &done) {
            Some(s) => {
                proof {
                    lemma_next_symbol_left(clauses@, texts_view(done));
                }
                let ghost before = texts_view(done);
                done.push(s);
                assert(texts_view(done) =~= before.push(s@));
            },
            None => {
                return done;
            },
        }
    }
}

/// The resolvents of every clause of `pos` with every clause of `neg`.
pub fn resolve_all(pos: &Clauses, neg: &Clauses) -> (out: Clauses)
    ensures
        out@ == resolvents(pos@, neg@, pos@.len()),
        pos.well_formed() && neg.well_formed() ==> out.well_formed(),
{
    let mut out = Clauses::new();
    let mut a: usize = 0;
    while a < pos.0.len()
        invariant
            a <= pos.0.len(),
            out@ == resolvents(pos@, neg@, a as nat),
            pos.well_formed() && neg.well_formed() ==> out.well_formed(),
        decreases pos.0.len() - a,
    {
        let ghost before = out@;
        let ghost with = resolves_with(pos@[a as int]);
        let mut b: usize = 0;
        assert(out@ =~= before + neg@.take(0).map_values(with));
        while b < neg.0.len()
            invariant
                b <= neg.0.len(),
                a < pos.0.len(),
                with == resolves_with(pos@[a as int]),
                out@ == before + neg@.take(b as int).map_values(with),
                pos.well_formed() && neg.well_formed() ==> out.well_formed(),
            decreases neg.0.len() - b,
        {
            let mut r = pos.0[a].union(&neg.0[b]);
            proof {
                assert(pos.well_formed() ==> pos@[a as int].no_duplicates());
                assert(neg.well_formed() ==> neg@[b as int].no_duplicates());
            }
            r.remove_trivals();
            out.push(r);
            assert(out@ =~= before + neg@.take(b + 1).map_values(with));
            b += 1;
        }
        assert(neg@.take(neg.0.len() as int) =~= neg@);
        a += 1;
    }
    out
}

/// The resolvents on a symbol: of each clause of the clause set that
/// holds it positively with each that holds it negatively only.
pub fn resolve_on(clauses: &Clauses, symbol: &str) -> (out: Clauses)
    ensures
        out@ == resolvents_on(clauses@, symbol@),
        clauses.well_formed() ==> out.well_formed(),
{
    let p = Literal::pos(String::from_str(symbol));
    let n = Literal::neg(String::from_str(symbol));
    let ghost s = symbol@;
    let mut pos = Clauses::new();
    let mut neg = Clauses::new();
    let mut i: usize = 0;
    proof {
        reveal(Seq::filter);
        assert(clauses@.take(0).filter(in_pos(s)) =~= Seq::<Seq<LiteralModel>>::empty());
        assert(clauses@.take(0).filter(in_neg(s)) =~= Seq::<Seq<LiteralModel>>::empty());
    }
    while i < clauses.0.len()
        invariant
            i <= clauses.0.len(),
            p@ == LiteralModel::Pos(s),
            n@ == LiteralModel::Neg(s),
            pos@ == clauses@.take(i as int).filter(in_pos(s)),
            neg@ == clauses@.take(i as int).filter(in_neg(s)),
            clauses.well_formed() ==> pos.well_formed() && neg.well_formed(),
        decreases clauses.0.len() - i,
    {
        proof {
            clauses@.lemma_take_succ_push(i as int);
            clauses@.take(i as int).lemma_filter_push(clauses@[i as int], in_pos(s));
            clauses@.take(i as int).lemma_filter_push(clauses@[i as int], in_neg(s));
            assert(clauses.well_formed() ==> clauses@[i as int].no_duplicates());
        }
        if clauses.0[i].contains(&p) {
            pos.push(clauses.0[i].clone());
        } else if clauses.0[i].contains(&n) {
            neg.push(clauses.0[i].clone());
        }
        i += 1;
    }
    assert(clauses@.take(clauses.0.len() as int) =~= clauses@);
    resolve_all(&pos, &neg)
}

/// Resolution on every symbol in one pass. Every clause that holds a
/// literal leaves the clause set. What enters is, for every symbol in rank,
/// the resolvent of each clause of the set that holds the symbol positively
/// with each that holds it negatively only; a complementary pair of
/// literals is dropped from a resolvent. The clauses that hold nothing
/// stay. A clause set without any literal comes back as it was.
pub fn resolution_rule(clauses: Clauses) -> (r: Result<Clauses, Clauses>)
    ensures
        match r {
            Ok(out) => ranked(clauses@).len() > 0 && out@ == resolved(clauses@) && (
            clauses.well_formed() ==> out.well_formed()),
            Err(out) => ranked(clauses@).len() == 0 && out@ == clauses@,
        },
{
    let symbols = rank_symbols(&clauses);
    if symbols.len() == 0 {
        return Err(clauses);
    }
    let ghost keep = holds_nothing();
    let mut out = Clauses::new();
    let mut i: usize = 0;
    assert(clauses@.take(0).filter(keep) =~= Seq::<Seq<LiteralModel>>::empty()) by {
        reveal(Seq::filter);
    }
    while i < clauses.0.len()
        invariant
            i <= clauses.0.len(),
            keep == holds_nothing(),
            out@ == clauses@.take(i as int).filter(keep),
            clauses.well_formed() ==> out.well_formed(),
        decreases clauses.0.len() - i,
    {
        proof {
            clauses@.lemma_take_succ_push(i as int);
            clauses@.take(i as int).lemma_filter_push(clauses@[i as int], keep);
            assert(clauses.well_formed() ==> clauses@[i as int].no_duplicates());
        }
        if clauses.0[i].is_empty() {
            out.push(clauses.0[i].clone());
        }
        i += 1;
    }
    assert(clauses@.take(clauses.0.len() as int) =~= clauses@);
    let ghost kept = out@;
    let ghost syms = texts_view(symbols);
    let mut k: usize = 0;
    assert(out@ =~= kept + resolvents_over(clauses@, syms, 0));
    while k < symbols.len()
        invariant
            k <= symbols.len(),
            syms == texts_view(symbols),
            out@ == kept + resolvents_over(clauses@, syms, k as nat),
            clauses.well_formed() ==> out.well_formed(),
        decreases symbols.len() - k,
    {
        let resolvents = resolve_on(&clauses, symbols[k].as_str());
        assert(syms[k as int] == symbols[k as int]@);
        out.append(resolvents);
        assert(out@ =~= kept + resolvents_over(clauses@, syms, (k + 1) as nat));
        k += 1;
    }
    Ok(out)
}

/// The Davis-Putnam procedure: whether it finds the clause set
/// satisfiable. It resolves at most as often as the clause set has symbols.
/// Where unit propagation and pure-literal elimination settle the matter,
/// the answer is right.
pub fn satisfiable_dp(clauses: Clauses) -> (satisfiable: bool)
    ensures
        satisfiable == dp(clauses@),
        crate::sat::models::settled(clauses@) is Some ==> satisfiable
            == crate::sat::models::satisfiable(clauses@),
{
    proof {
        if crate::sat::models::settled(clauses@) is Some {
            crate::sat::models::lemma_dp_settled(clauses@);
        }
    }
    let mut passes = rank_symbols(&clauses).len();
    let mut current = clauses;
    loop
        invariant
            dp_within(current@, passes as nat) == dp(clauses@),
            crate::sat::models::settled(clauses@) is Some ==> dp(clauses@)
                == crate::sat::models::satisfiable(clauses@),
        decreases passes, symbols(current@).len(),
    {
        if current.is_empty() {
            return true;
        }
        if holds_empty_clause(&current) {
            return false;
        }
        let ghost before = current@;
        match unit_propagation_rule(current) {
            Ok(s) => {
                proof {
                    lemma_unit_occurs(before, 0);
                    lemma_propagated_measure(before, first_unit(before)->0);
                }
                current = s;
                continue;
            },
            Err(s) => {
                current = s;
            },
        }
        match affirmative_negative_rule(current) {
            Ok(s) => {
                proof {
                    lemma_without_pure_measure(before);
                }
                current = s;
                continue;
            },
            Err(s) => {
                current = s;
            },
        }
        if passes == 0 {
            return true;
        }
        proof {
            lemma_next_symbol_first(before);
        }
        match resolution_rule(current) {
            Ok(s) => {
                current = s;
                passes -= 1;
                continue;
            },
            Err(_) => {
                return true;
            },
        }
    }
}

/// A double negation in front of a formula changes nothing of what the
/// procedure finds: the clause set of the formula and that of its double
/// negation are the same, and so is the answer.
pub proof fn lemma_double_negation(f: FormulaModel)
    ensures
        FormulaModel::Not(Box::new(FormulaModel::Not(Box::new(f)))).clausal_form() == f.clausal_form(),
        dp(FormulaModel::Not(Box::new(FormulaModel::Not(Box::new(f)))).clausal_form().clauses())
            == dp(f.clausal_form().clauses()),
{
    lemma_nnf_double_negation(f);
}

} // verus!
