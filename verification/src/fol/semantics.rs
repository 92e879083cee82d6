use vstd::prelude::*;
use crate::fol::ast::{FormulaModel, TermModel};
use crate::fol::cnf::distribute;
use crate::fol::free::free_vars_of_terms;
use crate::fol::fresh::lemma_fresh_name_of;
use crate::fol::occurrences::{lemma_free_finite, lemma_term_finite};
use crate::fol::pnf::{
    lemma_pnf_quantifier_free, prenex_join, Connective,
};
use crate::fol::skolem::{next_skolem, skolem_term};
use crate::fol::subst::{
    lemma_rename_binder_shape, lemma_subst_shape, rename_binder, subst_binder, subst_terms,
};

verus! {

/// The value that an environment gives a variable. A variable without a
/// value of its own has the value of the constant without name.
pub open spec fn lookup<D>(
    env: Map<Seq<char>, D>,
    funcs: spec_fn(Seq<char>, Seq<D>) -> D,
    name: Seq<char>,
) -> D {
    if env.dom().contains(name) {
        env[name]
    } else {
        funcs(Seq::empty(), Seq::empty())
    }
}

/// The values of the terms of a list.
pub open spec fn values<D>(
    ts: Seq<TermModel>,
    funcs: spec_fn(Seq<char>, Seq<D>) -> D,
    env: Map<Seq<char>, D>,
) -> Seq<D>
    decreases ts,
{
    Seq::new(
        ts.len(),
        |i: int|
            if 0 <= i < ts.len() {
                value(ts[i], funcs, env)
            } else {
                funcs(Seq::empty(), Seq::empty())
            },
    )
}

/// The value of a term in a structure whose functions are `funcs`, where
/// `env` gives the values of the variables.
pub open spec fn value<D>(
    t: TermModel,
    funcs: spec_fn(Seq<char>, Seq<D>) -> D,
    env: Map<Seq<char>, D>,
) -> D
    decreases t,
{
    match t {
        TermModel::Var(name) => lookup(env, funcs, name),
        TermModel::Func(name, args) => funcs(name, values(args, funcs, env)),
        TermModel::Dummy => funcs(Seq::empty(), Seq::empty()),
    }
}

/// Every element of `D` is a value of the structure. The quantifiers of
/// `holds` range over the elements of which this predicate is true: all.
pub open spec fn is_value<D>(d: D) -> bool {
    true
}

/// Whether a formula holds in a structure over the values `D` whose
/// functions are `funcs` and whose relations are `preds`, where `env`
/// gives the values of the free variables. A placeholder does not hold.
pub open spec fn holds<D>(
    f: FormulaModel,
    funcs: spec_fn(Seq<char>, Seq<D>) -> D,
    preds: spec_fn(Seq<char>, Seq<D>) -> bool,
    env: Map<Seq<char>, D>,
) -> bool
    decreases f,
{
    match f {
        FormulaModel::Pred(name, args) => preds(name, values(args, funcs, env)),
        FormulaModel::Not(a) => !holds(*a, funcs, preds, env),
        FormulaModel::And(a, b) => holds(*a, funcs, preds, env) && holds(*b, funcs, preds, env),
        FormulaModel::Or(a, b) => holds(*a, funcs, preds, env) || holds(*b, funcs, preds, env),
        FormulaModel::Implies(a, b) => !holds(*a, funcs, preds, env) || holds(
            *b,
            funcs,
            preds,
            env,
        ),
        FormulaModel::Iff(a, b) => holds(*a, funcs, preds, env) == holds(*b, funcs, preds, env),
        FormulaModel::ForAll(x, a) => forall|d: D| #[trigger]
            is_value(d) ==> holds(*a, funcs, preds, env.insert(x, d)),
        FormulaModel::Exists(x, a) => exists|d: D| #[trigger]
            is_value(d) && holds(*a, funcs, preds, env.insert(x, d)),
        FormulaModel::Dummy => false,
    }
}

/// The negation normal form means what the formula means: in every
/// structure and under every assignment the one holds exactly if the
/// other does.
pub proof fn lemma_nnf_meaning<D>(
    f: FormulaModel,
    funcs: spec_fn(Seq<char>, Seq<D>) -> D,
    preds: spec_fn(Seq<char>, Seq<D>) -> bool,
    env: Map<Seq<char>, D>,
)
    ensures
        holds(f.nnf(), funcs, preds, env) == holds(f, funcs, preds, env),
        holds(f.nnf_neg(), funcs, preds, env) == !holds(f, funcs, preds, env),
    decreases f, 0nat,
{
    reveal_with_fuel(holds, 3);
    match f {
        FormulaModel::Pred(_, _) => {},
        FormulaModel::Not(a) => {
            lemma_nnf_meaning(*a, funcs, preds, env);
        },
        FormulaModel::And(a, b) => {
            lemma_nnf_meaning(*a, funcs, preds, env);
            lemma_nnf_meaning(*b, funcs, preds, env);
        },
        FormulaModel::Or(a, b) => {
            lemma_nnf_meaning(*a, funcs, preds, env);
            lemma_nnf_meaning(*b, funcs, preds, env);
        },
        FormulaModel::Implies(a, b) => {
            lemma_nnf_meaning(*a, funcs, preds, env);
            lemma_nnf_meaning(*b, funcs, preds, env);
        },
        FormulaModel::Iff(a, b) => {
            lemma_nnf_meaning(*a, funcs, preds, env);
            lemma_nnf_meaning(*b, funcs, preds, env);
        },
        FormulaModel::ForAll(x, a) => {
            lemma_nnf_meaning_under(*a, funcs, preds, env, x);
            if holds(f, funcs, preds, env) {
                assert forall|d: D| #[trigger] is_value(d) implies holds(
                    a.nnf(),
                    funcs,
                    preds,
                    env.insert(x, d),
                ) && !holds(a.nnf_neg(), funcs, preds, env.insert(x, d)) by {
                    assert(holds(*a, funcs, preds, env.insert(x, d)));
                }
            } else {
                let d = choose|d: D| #[trigger]
                    is_value(d) && !holds(*a, funcs, preds, env.insert(x, d));
                assert(is_value(d) && !holds(a.nnf(), funcs, preds, env.insert(x, d)));
                assert(is_value(d) && holds(a.nnf_neg(), funcs, preds, env.insert(x, d)));
            }
        },
        FormulaModel::Exists(x, a) => {
            lemma_nnf_meaning_under(*a, funcs, preds, env, x);
            if holds(f, funcs, preds, env) {
                let d = choose|d: D| #[trigger]
                    is_value(d) && holds(*a, funcs, preds, env.insert(x, d));
                assert(is_value(d) && holds(a.nnf(), funcs, preds, env.insert(x, d)));
                assert(is_value(d) && !holds(a.nnf_neg(), funcs, preds, env.insert(x, d)));
            } else {
                assert forall|d: D| #[trigger] is_value(d) implies !holds(
                    a.nnf(),
                    funcs,
                    preds,
                    env.insert(x, d),
                ) && holds(a.nnf_neg(), funcs, preds, env.insert(x, d)) by {
                    assert(!holds(*a, funcs, preds, env.insert(x, d)));
                }
            }
        },
        FormulaModel::Dummy => {},
    }
}

/// The same of the body of a quantification over `x`, for every value of `x`.
proof fn lemma_nnf_meaning_under<D>(
    a: FormulaModel,
    funcs: spec_fn(Seq<char>, Seq<D>) -> D,
    preds: spec_fn(Seq<char>, Seq<D>) -> bool,
    env: Map<Seq<char>, D>,
    x: Seq<char>,
)
    ensures
        forall|d: D| #[trigger]
            is_value(d) ==> holds(a.nnf(), funcs, preds, env.insert(x, d)) == holds(
                a,
                funcs,
                preds,
                env.insert(x, d),
            ) && holds(a.nnf_neg(), funcs, preds, env.insert(x, d)) == !holds(
                a,
                funcs,
                preds,
                env.insert(x, d),
            ),
    decreases a, 1nat,
{
    assert forall|d: D| #[trigger] is_value(d) implies holds(
        a.nnf(),
        funcs,
        preds,
        env.insert(x, d),
    ) == holds(a, funcs, preds, env.insert(x, d)) && holds(
        a.nnf_neg(),
        funcs,
        preds,
        env.insert(x, d),
    ) == !holds(a, funcs, preds, env.insert(x, d)) by {
        lemma_nnf_meaning(a, funcs, preds, env.insert(x, d));
    }
}

/// A distributed disjunction holds exactly if one of its sides does.
pub proof fn lemma_distribute_meaning<D>(
    l: FormulaModel,
    r: FormulaModel,
    funcs: spec_fn(Seq<char>, Seq<D>) -> D,
    preds: spec_fn(Seq<char>, Seq<D>) -> bool,
    env: Map<Seq<char>, D>,
)
    ensures
        holds(distribute(l, r), funcs, preds, env) == (holds(l, funcs, preds, env) || holds(
            r,
            funcs,
            preds,
            env,
        )),
    decreases l.size() + r.size(),
{
    match r {
        FormulaModel::And(a, b) => {
            lemma_distribute_meaning(l, *a, funcs, preds, env);
            lemma_distribute_meaning(l, *b, funcs, preds, env);
        },
        _ => match l {
            FormulaModel::And(a, b) => {
                lemma_distribute_meaning(*a, r, funcs, preds, env);
                lemma_distribute_meaning(*b, r, funcs, preds, env);
            },
            _ => {},
        },
    }
}

/// The conjunctive normal form means what the formula means: in every
/// structure and under every assignment the one holds exactly if the
/// other does.
pub proof fn lemma_cnf_meaning<D>(
    f: FormulaModel,
    funcs: spec_fn(Seq<char>, Seq<D>) -> D,
    preds: spec_fn(Seq<char>, Seq<D>) -> bool,
    env: Map<Seq<char>, D>,
)
    ensures
        holds(f.cnf(), funcs, preds, env) == holds(f, funcs, preds, env),
    decreases f,
{
    match f {
        FormulaModel::And(a, b) => {
            lemma_cnf_meaning(*a, funcs, preds, env);
            lemma_cnf_meaning(*b, funcs, preds, env);
        },
        FormulaModel::Or(a, b) => {
            lemma_cnf_meaning(*a, funcs, preds, env);
            lemma_cnf_meaning(*b, funcs, preds, env);
            lemma_distribute_meaning(a.cnf(), b.cnf(), funcs, preds, env);
        },
        _ => {},
    }
}

/// Two environments give the variables of `vars` the same values.
pub open spec fn agree<D>(
    a: Map<Seq<char>, D>,
    b: Map<Seq<char>, D>,
    funcs: spec_fn(Seq<char>, Seq<D>) -> D,
    vars: Set<Seq<char>>,
) -> bool {
    forall|name: Seq<char>| #[trigger]
        vars.contains(name) ==> lookup(a, funcs, name) == lookup(b, funcs, name)
}

/// Environments that agree on a set of variables agree on each part of it.
pub proof fn lemma_agree_on_part<D>(
    a: Map<Seq<char>, D>,
    b: Map<Seq<char>, D>,
    funcs: spec_fn(Seq<char>, Seq<D>) -> D,
    vars: Set<Seq<char>>,
    part: Set<Seq<char>>,
)
    requires
        agree(a, b, funcs, vars),
        part.subset_of(vars),
    ensures
        agree(a, b, funcs, part),
{
    assert forall|name: Seq<char>| #[trigger] part.contains(name) implies lookup(a, funcs, name)
        == lookup(b, funcs, name) by {
        assert(vars.contains(name));
    }
}

/// Environments that agree on the free variables of a quantification
/// agree on those of its body, once both give the bound variable the
/// same value.
pub proof fn lemma_agree_under<D>(
    a: Map<Seq<char>, D>,
    b: Map<Seq<char>, D>,
    funcs: spec_fn(Seq<char>, Seq<D>) -> D,
    body_vars: Set<Seq<char>>,
    x: Seq<char>,
    d: D,
)
    requires
        agree(a, b, funcs, body_vars.remove(x)),
    ensures
        agree(a.insert(x, d), b.insert(x, d), funcs, body_vars),
{
    assert forall|name: Seq<char>| #[trigger] body_vars.contains(name) implies lookup(
        a.insert(x, d),
        funcs,
        name,
    ) == lookup(b.insert(x, d), funcs, name) by {
        if name != x {
            assert(body_vars.remove(x).contains(name));
        }
    }
}

/// The variables of a term of a list are among those of the list.
pub proof fn lemma_term_of_list(ts: Seq<TermModel>, n: nat, i: int)
    requires
        0 <= i < n <= ts.len(),
    ensures
        ts[i].free_vars().subset_of(free_vars_of_terms(ts, n)),
    decreases n,
{
    if i < n - 1 {
        lemma_term_of_list(ts, (n - 1) as nat, i);
    }
}

/// The values of the terms of a list depend on the values of their
/// variables only.
pub proof fn lemma_values_coincide<D>(
    ts: Seq<TermModel>,
    funcs: spec_fn(Seq<char>, Seq<D>) -> D,
    a: Map<Seq<char>, D>,
    b: Map<Seq<char>, D>,
)
    requires
        agree(a, b, funcs, free_vars_of_terms(ts, ts.len())),
    ensures
        values(ts, funcs, a) == values(ts, funcs, b),
    decreases ts, 1nat,
{
    assert forall|i: int| 0 <= i < ts.len() implies value(ts[i], funcs, a) == value(
        ts[i],
        funcs,
        b,
    ) by {
        lemma_term_of_list(ts, ts.len(), i);
        lemma_agree_on_part(a, b, funcs, free_vars_of_terms(ts, ts.len()), ts[i].free_vars());
        lemma_value_coincides(ts[i], funcs, a, b);
    }
    assert(values(ts, funcs, a) =~= values(ts, funcs, b));
}

/// The value of a term depends on the values of its variables only.
pub proof fn lemma_value_coincides<D>(
    t: TermModel,
    funcs: spec_fn(Seq<char>, Seq<D>) -> D,
    a: Map<Seq<char>, D>,
    b: Map<Seq<char>, D>,
)
    requires
        agree(a, b, funcs, t.free_vars()),
    ensures
        value(t, funcs, a) == value(t, funcs, b),
    decreases t, 0nat,
{
    match t {
        TermModel::Var(name) => {
            assert(t.free_vars().contains(name));
        },
        TermModel::Func(_, args) => {
            lemma_values_coincide(args, funcs, a, b);
        },
        TermModel::Dummy => {},
    }
}

/// Whether a formula holds depends on the values of its free variables only.
pub proof fn lemma_holds_coincides<D>(
    f: FormulaModel,
    funcs: spec_fn(Seq<char>, Seq<D>) -> D,
    preds: spec_fn(Seq<char>, Seq<D>) -> bool,
    a: Map<Seq<char>, D>,
    b: Map<Seq<char>, D>,
)
    requires
        agree(a, b, funcs, f.free_vars()),
    ensures
        holds(f, funcs, preds, a) == holds(f, funcs, preds, b),
    decreases f.size(), 0nat,
{
    match f {
        FormulaModel::Pred(_, args) => {
            lemma_values_coincide(args, funcs, a, b);
        },
        FormulaModel::Not(g) => {
            lemma_holds_coincides(*g, funcs, preds, a, b);
        },
        FormulaModel::And(g, h) => {
            lemma_holds_coincides_pair(*g, *h, funcs, preds, a, b);
        },
        FormulaModel::Or(g, h) => {
            lemma_holds_coincides_pair(*g, *h, funcs, preds, a, b);
        },
        FormulaModel::Implies(g, h) => {
            lemma_holds_coincides_pair(*g, *h, funcs, preds, a, b);
        },
        FormulaModel::Iff(g, h) => {
            lemma_holds_coincides_pair(*g, *h, funcs, preds, a, b);
        },
        FormulaModel::ForAll(x, g) => {
            assert forall|d: D| #[trigger] is_value(d) implies holds(
                *g,
                funcs,
                preds,
                a.insert(x, d),
            ) == holds(*g, funcs, preds, b.insert(x, d)) by {
                lemma_agree_under(a, b, funcs, g.free_vars(), x, d);
                lemma_holds_coincides(*g, funcs, preds, a.insert(x, d), b.insert(x, d));
            }
        },
        FormulaModel::Exists(x, g) => {
            assert forall|d: D| #[trigger] is_value(d) implies holds(
                *g,
                funcs,
                preds,
                a.insert(x, d),
            ) == holds(*g, funcs, preds, b.insert(x, d)) by {
                lemma_agree_under(a, b, funcs, g.free_vars(), x, d);
                lemma_holds_coincides(*g, funcs, preds, a.insert(x, d), b.insert(x, d));
            }
            if holds(f, funcs, preds, a) {
                let d = choose|d: D| #[trigger]
                    is_value(d) && holds(*g, funcs, preds, a.insert(x, d));
                assert(is_value(d) && holds(*g, funcs, preds, b.insert(x, d)));
            }
            if holds(f, funcs, preds, b) {
                let d = choose|d: D| #[trigger]
                    is_value(d) && holds(*g, funcs, preds, b.insert(x, d));
                assert(is_value(d) && holds(*g, funcs, preds, a.insert(x, d)));
            }
        },
        FormulaModel::Dummy => {},
    }
}

/// The same of the two sides of a connective.
proof fn lemma_holds_coincides_pair<D>(
    g: FormulaModel,
    h: FormulaModel,
    funcs: spec_fn(Seq<char>, Seq<D>) -> D,
    preds: spec_fn(Seq<char>, Seq<D>) -> bool,
    a: Map<Seq<char>, D>,
    b: Map<Seq<char>, D>,
)
    requires
        agree(a, b, funcs, g.free_vars().union(h.free_vars())),
    ensures
        holds(g, funcs, preds, a) == holds(g, funcs, preds, b),
        holds(h, funcs, preds, a) == holds(h, funcs, preds, b),
    decreases g.size() + h.size(), 1nat,
{
    lemma_agree_on_part(a, b, funcs, g.free_vars().union(h.free_vars()), g.free_vars());
    lemma_agree_on_part(a, b, funcs, g.free_vars().union(h.free_vars()), h.free_vars());
    lemma_holds_coincides(g, funcs, preds, a, b);
    lemma_holds_coincides(h, funcs, preds, a, b);
}

/// A new value for a variable outside a set leaves the values of the
/// variables of the set as they were.
pub proof fn lemma_agree_beside<D>(
    env: Map<Seq<char>, D>,
    funcs: spec_fn(Seq<char>, Seq<D>) -> D,
    vars: Set<Seq<char>>,
    y: Seq<char>,
    d: D,
)
    requires
        !vars.contains(y),
    ensures
        agree(env.insert(y, d), env, funcs, vars),
{
}

/// The values of the terms of a list after substitution.
pub proof fn lemma_values_subst<D>(
    ts: Seq<TermModel>,
    x: Seq<char>,
    r: TermModel,
    funcs: spec_fn(Seq<char>, Seq<D>) -> D,
    env: Map<Seq<char>, D>,
)
    ensures
        values(subst_terms(ts, x, r), funcs, env) == values(
            ts,
            funcs,
            env.insert(x, value(r, funcs, env)),
        ),
    decreases ts, 1nat,
{
    assert forall|i: int| 0 <= i < ts.len() implies value(ts[i].subst(x, r), funcs, env) == value(
        ts[i],
        funcs,
        env.insert(x, value(r, funcs, env)),
    ) by {
        lemma_value_subst(ts[i], x, r, funcs, env);
    }
    assert(values(subst_terms(ts, x, r), funcs, env) =~= values(
        ts,
        funcs,
        env.insert(x, value(r, funcs, env)),
    ));
}

/// The value of a term after substitution: that of the term where `x`
/// has the value of `r`.
pub proof fn lemma_value_subst<D>(
    t: TermModel,
    x: Seq<char>,
    r: TermModel,
    funcs: spec_fn(Seq<char>, Seq<D>) -> D,
    env: Map<Seq<char>, D>,
)
    ensures
        value(t.subst(x, r), funcs, env) == value(t, funcs, env.insert(x, value(r, funcs, env))),
    decreases t, 0nat,
{
    match t {
        TermModel::Func(_, args) => {
            lemma_values_subst(args, x, r, funcs, env);
        },
        _ => {},
    }
}

/// Substitution means what it should: after `r` was put in place of `x`,
/// the formula holds exactly if it held before where `x` has the value of
/// `r`. This is what the renaming of bound variables is for.
pub proof fn lemma_subst_meaning<D>(
    f: FormulaModel,
    x: Seq<char>,
    r: TermModel,
    funcs: spec_fn(Seq<char>, Seq<D>) -> D,
    preds: spec_fn(Seq<char>, Seq<D>) -> bool,
    env: Map<Seq<char>, D>,
)
    ensures
        holds(f.subst(x, r), funcs, preds, env) == holds(
            f,
            funcs,
            preds,
            env.insert(x, value(r, funcs, env)),
        ),
    decreases f.size(), 0nat,
{
    let v = value(r, funcs, env);
    match f {
        FormulaModel::Pred(_, args) => {
            lemma_values_subst(args, x, r, funcs, env);
        },
        FormulaModel::Not(g) => {
            lemma_subst_meaning(*g, x, r, funcs, preds, env);
        },
        FormulaModel::And(g, h) => {
            lemma_subst_meaning(*g, x, r, funcs, preds, env);
            lemma_subst_meaning(*h, x, r, funcs, preds, env);
        },
        FormulaModel::Or(g, h) => {
            lemma_subst_meaning(*g, x, r, funcs, preds, env);
            lemma_subst_meaning(*h, x, r, funcs, preds, env);
        },
        FormulaModel::Implies(g, h) => {
            lemma_subst_meaning(*g, x, r, funcs, preds, env);
            lemma_subst_meaning(*h, x, r, funcs, preds, env);
        },
        FormulaModel::Iff(g, h) => {
            lemma_subst_meaning(*g, x, r, funcs, preds, env);
            lemma_subst_meaning(*h, x, r, funcs, preds, env);
        },
        FormulaModel::ForAll(y, g) => {
            let q = subst_binder(y, *g, x, r);
            assert forall|d: D| #[trigger] is_value(d) implies holds(
                q.1,
                funcs,
                preds,
                env.insert(q.0, d),
            ) == holds(*g, funcs, preds, env.insert(x, v).insert(y, d)) by {
                lemma_binder_meaning(y, *g, x, r, funcs, preds, env, d);
            }
        },
        FormulaModel::Exists(y, g) => {
            let q = subst_binder(y, *g, x, r);
            assert forall|d: D| #[trigger] is_value(d) implies holds(
                q.1,
                funcs,
                preds,
                env.insert(q.0, d),
            ) == holds(*g, funcs, preds, env.insert(x, v).insert(y, d)) by {
                lemma_binder_meaning(y, *g, x, r, funcs, preds, env, d);
            }
            if holds(f.subst(x, r), funcs, preds, env) {
                let d = choose|d: D| #[trigger]
                    is_value(d) && holds(q.1, funcs, preds, env.insert(q.0, d));
                assert(is_value(d) && holds(*g, funcs, preds, env.insert(x, v).insert(y, d)));
            }
            if holds(f, funcs, preds, env.insert(x, v)) {
                let d = choose|d: D| #[trigger]
                    is_value(d) && holds(*g, funcs, preds, env.insert(x, v).insert(y, d));
                assert(is_value(d) && holds(q.1, funcs, preds, env.insert(q.0, d)));
            }
        },
        FormulaModel::Dummy => {},
    }
}

/// The same under a quantifier: with `q` the variable and the body that
/// substitution gives, the body holds where the variable has the value `d`
/// exactly if the body before held where `x` has the value of `r` and the
/// variable before has the value `d`.
pub proof fn lemma_binder_meaning<D>(
    y: Seq<char>,
    a: FormulaModel,
    x: Seq<char>,
    r: TermModel,
    funcs: spec_fn(Seq<char>, Seq<D>) -> D,
    preds: spec_fn(Seq<char>, Seq<D>) -> bool,
    env: Map<Seq<char>, D>,
    d: D,
)
    ensures
        holds(
            subst_binder(y, a, x, r).1,
            funcs,
            preds,
            env.insert(subst_binder(y, a, x, r).0, d),
        ) == holds(a, funcs, preds, env.insert(x, value(r, funcs, env)).insert(y, d)),
    decreases a.size(), 2nat,
{
    let v = value(r, funcs, env);
    let target = env.insert(x, v).insert(y, d);
    if y == x {
        assert(target =~= env.insert(y, d));
    } else if r.free_vars().contains(y) {
        let avoid = r.free_vars().insert(x);
        let q = rename_binder(y, a, avoid);
        let y1 = q.0;
        let a1 = q.1;
        lemma_subst_shape(a, y, TermModel::Var(y1));
        lemma_free_finite(a);
        lemma_term_finite(r);
        lemma_fresh_name_of(y, a.free_vars().union(avoid));
        assert(!a.free_vars().contains(y1));
        assert(!r.free_vars().contains(y1));
        assert(y1 != x && y1 != y);
        let e1 = env.insert(y1, d);
        // the substitution proper, under the renamed quantifier
        lemma_subst_meaning(a1, x, r, funcs, preds, e1);
        lemma_agree_beside(env, funcs, r.free_vars(), y1, d);
        lemma_value_coincides(r, funcs, e1, env);
        let e2 = e1.insert(x, v);
        // the renaming
        lemma_subst_meaning(a, y, TermModel::Var(y1), funcs, preds, e2);
        assert(value(TermModel::Var(y1), funcs, e2) == d);
        let e3 = e2.insert(y, d);
        assert(agree(e3, target, funcs, a.free_vars())) by {
            assert forall|name: Seq<char>| #[trigger] a.free_vars().contains(name) implies lookup(
                e3,
                funcs,
                name,
            ) == lookup(target, funcs, name) by {
                assert(name != y1);
            }
        }
        lemma_holds_coincides(a, funcs, preds, e3, target);
    } else {
        let e1 = env.insert(y, d);
        lemma_subst_meaning(a, x, r, funcs, preds, e1);
        lemma_agree_beside(env, funcs, r.free_vars(), y, d);
        lemma_value_coincides(r, funcs, e1, env);
        assert(e1.insert(x, v) =~= target);
    }
}

/// Renaming the variable of a quantifier changes nothing of what the
/// quantification means: with `q` the variable and body after the
/// renaming, the body holds where the new variable has the value `d`
/// exactly if the body before held where the variable before has it.
pub proof fn lemma_rename_meaning<D>(
    y: Seq<char>,
    a: FormulaModel,
    avoid: Set<Seq<char>>,
    funcs: spec_fn(Seq<char>, Seq<D>) -> D,
    preds: spec_fn(Seq<char>, Seq<D>) -> bool,
    env: Map<Seq<char>, D>,
    d: D,
)
    requires
        avoid.finite(),
    ensures
        holds(
            rename_binder(y, a, avoid).1,
            funcs,
            preds,
            env.insert(rename_binder(y, a, avoid).0, d),
        ) == holds(a, funcs, preds, env.insert(y, d)),
{
    let y1 = rename_binder(y, a, avoid).0;
    lemma_free_finite(a);
    lemma_fresh_name_of(y, a.free_vars().union(avoid));
    assert(!a.free_vars().contains(y1));
    let e1 = env.insert(y1, d);
    lemma_subst_meaning(a, y, TermModel::Var(y1), funcs, preds, e1);
    assert(value(TermModel::Var(y1), funcs, e1) == d);
    let e2 = e1.insert(y, d);
    assert(agree(e2, env.insert(y, d), funcs, a.free_vars())) by {
        assert forall|name: Seq<char>| #[trigger] a.free_vars().contains(name) implies lookup(
            e2,
            funcs,
            name,
        ) == lookup(env.insert(y, d), funcs, name) by {
            assert(name != y1);
        }
    }
    lemma_holds_coincides(a, funcs, preds, e2, env.insert(y, d));
}

/// A formula with the variable of its outermost quantifier renamed means
/// what the formula means.
pub proof fn lemma_alpha_renamed_meaning<D>(
    f: FormulaModel,
    avoid: Set<Seq<char>>,
    funcs: spec_fn(Seq<char>, Seq<D>) -> D,
    preds: spec_fn(Seq<char>, Seq<D>) -> bool,
    env: Map<Seq<char>, D>,
)
    requires
        avoid.finite(),
    ensures
        holds(f.alpha_renamed(avoid), funcs, preds, env) == holds(f, funcs, preds, env),
{
    match f {
        FormulaModel::ForAll(y, a) => {
            let q = rename_binder(y, *a, avoid);
            assert forall|d: D| #[trigger] is_value(d) implies holds(
                q.1,
                funcs,
                preds,
                env.insert(q.0, d),
            ) == holds(*a, funcs, preds, env.insert(y, d)) by {
                lemma_rename_meaning(y, *a, avoid, funcs, preds, env, d);
            }
        },
        FormulaModel::Exists(y, a) => {
            let q = rename_binder(y, *a, avoid);
            assert forall|d: D| #[trigger] is_value(d) implies holds(
                q.1,
                funcs,
                preds,
                env.insert(q.0, d),
            ) == holds(*a, funcs, preds, env.insert(y, d)) by {
                lemma_rename_meaning(y, *a, avoid, funcs, preds, env, d);
            }
            if holds(f.alpha_renamed(avoid), funcs, preds, env) {
                let d = choose|d: D| #[trigger]
                    is_value(d) && holds(q.1, funcs, preds, env.insert(q.0, d));
                assert(is_value(d) && holds(*a, funcs, preds, env.insert(y, d)));
            }
            if holds(f, funcs, preds, env) {
                let d = choose|d: D| #[trigger]
                    is_value(d) && holds(*a, funcs, preds, env.insert(y, d));
                assert(is_value(d) && holds(q.1, funcs, preds, env.insert(q.0, d)));
            }
        },
        _ => {},
    }
}

/// The Skolem form says no less than the formula: where it holds, in a
/// structure and under an assignment, the formula holds there too. The
/// converse is false: the formula may hold where the Skolem symbols mean
/// the wrong functions. A formula that holds somewhere has a Skolem form
/// that holds somewhere, and this lemma is the other half of that.
pub proof fn lemma_skolemized_implies<D>(
    f: FormulaModel,
    universals: Seq<Seq<char>>,
    k: nat,
    taken: Set<Seq<char>>,
    funcs: spec_fn(Seq<char>, Seq<D>) -> D,
    preds: spec_fn(Seq<char>, Seq<D>) -> bool,
    env: Map<Seq<char>, D>,
)
    requires
        holds(f.skolemized_from(universals, k, taken), funcs, preds, env),
    ensures
        holds(f, funcs, preds, env),
    decreases f.size(),
{
    match f {
        FormulaModel::ForAll(x, a) => {
            let body = a.skolemized_from(universals.push(x), k, taken);
            assert forall|d: D| #[trigger] is_value(d) implies holds(
                *a,
                funcs,
                preds,
                env.insert(x, d),
            ) by {
                assert(holds(body, funcs, preds, env.insert(x, d)));
                lemma_skolemized_implies(
                    *a,
                    universals.push(x),
                    k,
                    taken,
                    funcs,
                    preds,
                    env.insert(x, d),
                );
            }
        },
        FormulaModel::Exists(y, a) => {
            let number = next_skolem(taken, k);
            let t = skolem_term(number, universals);
            lemma_subst_shape(*a, y, t);
            lemma_skolemized_implies(a.subst(y, t), universals, number + 1, taken, funcs, preds, env);
            lemma_subst_meaning(*a, y, t, funcs, preds, env);
            let d = value(t, funcs, env);
            assert(is_value(d) && holds(*a, funcs, preds, env.insert(y, d)));
        },
        _ => {},
    }
}

impl FormulaModel {
    /// The variables that the leading quantifiers bind.
    pub open spec fn prefix_vars(self) -> Set<Seq<char>>
        decreases self,
    {
        match self {
            FormulaModel::ForAll(x, a) => a.prefix_vars().insert(x),
            FormulaModel::Exists(x, a) => a.prefix_vars().insert(x),
            _ => Set::empty(),
        }
    }

    /// The quantifiers of the formula can move to the front: the formula
    /// is made of conjunctions, disjunctions and quantifications over
    /// parts without quantifiers, and no quantifier that moves in front of
    /// a conjunction or disjunction from its left side binds a free
    /// variable of the right side.
    pub open spec fn prenex_safe(self) -> bool
        decreases self,
    {
        self.quantifier_free() || match self {
            FormulaModel::And(a, b) => a.prenex_safe() && b.prenex_safe() && a.pnf().prefix_vars().disjoint(
                b.pnf().prefix_renamed(a.pnf().matrix().free_vars()).free_vars(),
            ),
            FormulaModel::Or(a, b) => a.prenex_safe() && b.prenex_safe() && a.pnf().prefix_vars().disjoint(
                b.pnf().prefix_renamed(a.pnf().matrix().free_vars()).free_vars(),
            ),
            FormulaModel::ForAll(_, a) => a.prenex_safe(),
            FormulaModel::Exists(_, a) => a.prenex_safe(),
            _ => false,
        }
    }
}

/// Two formulas mean the same: in the structure given, each holds under
/// the assignments under which the other does.
pub open spec fn same_meaning<D>(
    f: FormulaModel,
    g: FormulaModel,
    funcs: spec_fn(Seq<char>, Seq<D>) -> D,
    preds: spec_fn(Seq<char>, Seq<D>) -> bool,
) -> bool {
    forall|env: Map<Seq<char>, D>| #[trigger]
        is_value(env) ==> holds(f, funcs, preds, env) == holds(g, funcs, preds, env)
}

/// Under the same prefix, matrices that mean the same give formulas that
/// mean the same.
pub proof fn lemma_prefix_congruence<D>(
    p: FormulaModel,
    m1: FormulaModel,
    m2: FormulaModel,
    funcs: spec_fn(Seq<char>, Seq<D>) -> D,
    preds: spec_fn(Seq<char>, Seq<D>) -> bool,
    env: Map<Seq<char>, D>,
)
    requires
        same_meaning(m1, m2, funcs, preds),
    ensures
        holds(p.with_matrix(m1), funcs, preds, env) == holds(p.with_matrix(m2), funcs, preds, env),
    decreases p,
{
    match p {
        FormulaModel::ForAll(x, a) => {
            assert forall|d: D| #[trigger] is_value(d) implies holds(
                a.with_matrix(m1),
                funcs,
                preds,
                env.insert(x, d),
            ) == holds(a.with_matrix(m2), funcs, preds, env.insert(x, d)) by {
                lemma_prefix_congruence(*a, m1, m2, funcs, preds, env.insert(x, d));
            }
        },
        FormulaModel::Exists(x, a) => {
            assert forall|d: D| #[trigger] is_value(d) implies holds(
                a.with_matrix(m1),
                funcs,
                preds,
                env.insert(x, d),
            ) == holds(a.with_matrix(m2), funcs, preds, env.insert(x, d)) by {
                lemma_prefix_congruence(*a, m1, m2, funcs, preds, env.insert(x, d));
            }
            if holds(p.with_matrix(m1), funcs, preds, env) {
                let d = choose|d: D| #[trigger]
                    is_value(d) && holds(a.with_matrix(m1), funcs, preds, env.insert(x, d));
                assert(is_value(d) && holds(a.with_matrix(m2), funcs, preds, env.insert(x, d)));
            }
            if holds(p.with_matrix(m2), funcs, preds, env) {
                let d = choose|d: D| #[trigger]
                    is_value(d) && holds(a.with_matrix(m2), funcs, preds, env.insert(x, d));
                assert(is_value(d) && holds(a.with_matrix(m1), funcs, preds, env.insert(x, d)));
            }
        },
        _ => {
            assert(is_value(env));
        },
    }
}

/// A conjunction or disjunction with a prenex formula on one side. The
/// prefix can move in front of the connective if it binds no free
/// variable of the other side `z`, on whichever side `z` stands.
pub proof fn lemma_prefix_moves_out<D>(
    op: Connective,
    p: FormulaModel,
    z: FormulaModel,
    funcs: spec_fn(Seq<char>, Seq<D>) -> D,
    preds: spec_fn(Seq<char>, Seq<D>) -> bool,
    env: Map<Seq<char>, D>,
)
    requires
        op == Connective::And || op == Connective::Or,
        p.prefix_vars().disjoint(z.free_vars()),
    ensures
        holds(p.with_matrix(op.apply(p.matrix(), z)), funcs, preds, env) == holds(
            op.apply(p, z),
            funcs,
            preds,
            env,
        ),
        holds(p.with_matrix(op.apply(z, p.matrix())), funcs, preds, env) == holds(
            op.apply(z, p),
            funcs,
            preds,
            env,
        ),
    decreases p,
{
    let any: D = arbitrary();
    assert(is_value(any));
    let hz = holds(z, funcs, preds, env);
    match p {
        FormulaModel::ForAll(x, a) => {
            let left = a.with_matrix(op.apply(a.matrix(), z));
            let right = a.with_matrix(op.apply(z, a.matrix()));
            assert(p.prefix_vars().contains(x));
            assert forall|d: D| #[trigger] is_value(d) implies holds(
                left,
                funcs,
                preds,
                env.insert(x, d),
            ) == holds(op.apply(*a, z), funcs, preds, env.insert(x, d)) && holds(
                right,
                funcs,
                preds,
                env.insert(x, d),
            ) == holds(op.apply(z, *a), funcs, preds, env.insert(x, d)) && holds(
                z,
                funcs,
                preds,
                env.insert(x, d),
            ) == hz by {
                assert(a.prefix_vars().disjoint(z.free_vars()));
                lemma_prefix_moves_out(op, *a, z, funcs, preds, env.insert(x, d));
                lemma_agree_beside(env, funcs, z.free_vars(), x, d);
                lemma_holds_coincides(z, funcs, preds, env.insert(x, d), env);
            }
            if holds(p, funcs, preds, env) {
                assert forall|d: D| #[trigger] is_value(d) implies holds(
                    *a,
                    funcs,
                    preds,
                    env.insert(x, d),
                ) by {}
            } else {
                let d = choose|d: D| #[trigger]
                    is_value(d) && !holds(*a, funcs, preds, env.insert(x, d));
                assert(is_value(d) && !holds(*a, funcs, preds, env.insert(x, d)));
            }
        },
        FormulaModel::Exists(x, a) => {
            let left = a.with_matrix(op.apply(a.matrix(), z));
            let right = a.with_matrix(op.apply(z, a.matrix()));
            assert(p.prefix_vars().contains(x));
            assert forall|d: D| #[trigger] is_value(d) implies holds(
                left,
                funcs,
                preds,
                env.insert(x, d),
            ) == holds(op.apply(*a, z), funcs, preds, env.insert(x, d)) && holds(
                right,
                funcs,
                preds,
                env.insert(x, d),
            ) == holds(op.apply(z, *a), funcs, preds, env.insert(x, d)) && holds(
                z,
                funcs,
                preds,
                env.insert(x, d),
            ) == hz by {
                assert(a.prefix_vars().disjoint(z.free_vars()));
                lemma_prefix_moves_out(op, *a, z, funcs, preds, env.insert(x, d));
                lemma_agree_beside(env, funcs, z.free_vars(), x, d);
                lemma_holds_coincides(z, funcs, preds, env.insert(x, d), env);
            }
            if holds(p, funcs, preds, env) {
                let d = choose|d: D| #[trigger]
                    is_value(d) && holds(*a, funcs, preds, env.insert(x, d));
                assert(is_value(d) && holds(*a, funcs, preds, env.insert(x, d)));
            }
            if holds(p.with_matrix(op.apply(p.matrix(), z)), funcs, preds, env) {
                let d = choose|d: D| #[trigger]
                    is_value(d) && holds(left, funcs, preds, env.insert(x, d));
                assert(is_value(d) && holds(op.apply(*a, z), funcs, preds, env.insert(x, d)));
            }
            if holds(p.with_matrix(op.apply(z, p.matrix())), funcs, preds, env) {
                let d = choose|d: D| #[trigger]
                    is_value(d) && holds(right, funcs, preds, env.insert(x, d));
                assert(is_value(d) && holds(op.apply(z, *a), funcs, preds, env.insert(x, d)));
            }
            if holds(op.apply(p, z), funcs, preds, env) {
                if holds(p, funcs, preds, env) {
                    let d = choose|d: D| #[trigger]
                        is_value(d) && holds(*a, funcs, preds, env.insert(x, d));
                    assert(is_value(d) && holds(left, funcs, preds, env.insert(x, d)));
                    assert(is_value(d) && holds(right, funcs, preds, env.insert(x, d)));
                } else {
                    assert(is_value(any) && holds(left, funcs, preds, env.insert(x, any)));
                    assert(is_value(any) && holds(right, funcs, preds, env.insert(x, any)));
                }
            }
        },
        _ => {},
    }
}

/// Renaming quantifiers of the prefix changes nothing of what the formula
/// means.
pub proof fn lemma_prefix_renamed_meaning<D>(
    f: FormulaModel,
    avoid: Set<Seq<char>>,
    funcs: spec_fn(Seq<char>, Seq<D>) -> D,
    preds: spec_fn(Seq<char>, Seq<D>) -> bool,
    env: Map<Seq<char>, D>,
)
    requires
        avoid.finite(),
    ensures
        holds(f.prefix_renamed(avoid), funcs, preds, env) == holds(f, funcs, preds, env),
    decreases f.size(),
{
    match f {
        FormulaModel::ForAll(y, a) => {
            if avoid.contains(y) {
                let av = avoid.union(a.matrix().free_vars());
                lemma_free_finite(a.matrix());
                lemma_rename_binder_shape(y, *a, av);
                let q = rename_binder(y, *a, av);
                assert forall|d: D| #[trigger] is_value(d) implies holds(
                    q.1.prefix_renamed(avoid),
                    funcs,
                    preds,
                    env.insert(q.0, d),
                ) == holds(*a, funcs, preds, env.insert(y, d)) by {
                    lemma_prefix_renamed_meaning(q.1, avoid, funcs, preds, env.insert(q.0, d));
                    lemma_rename_meaning(y, *a, av, funcs, preds, env, d);
                }
            } else {
                assert forall|d: D| #[trigger] is_value(d) implies holds(
                    a.prefix_renamed(avoid),
                    funcs,
                    preds,
                    env.insert(y, d),
                ) == holds(*a, funcs, preds, env.insert(y, d)) by {
                    lemma_prefix_renamed_meaning(*a, avoid, funcs, preds, env.insert(y, d));
                }
            }
        },
        FormulaModel::Exists(y, a) => {
            if avoid.contains(y) {
                let av = avoid.union(a.matrix().free_vars());
                lemma_free_finite(a.matrix());
                lemma_rename_binder_shape(y, *a, av);
                let q = rename_binder(y, *a, av);
                assert forall|d: D| #[trigger] is_value(d) implies holds(
                    q.1.prefix_renamed(avoid),
                    funcs,
                    preds,
                    env.insert(q.0, d),
                ) == holds(*a, funcs, preds, env.insert(y, d)) by {
                    lemma_prefix_renamed_meaning(q.1, avoid, funcs, preds, env.insert(q.0, d));
                    lemma_rename_meaning(y, *a, av, funcs, preds, env, d);
                }
                if holds(f.prefix_renamed(avoid), funcs, preds, env) {
                    let d = choose|d: D| #[trigger]
                        is_value(d) && holds(
                            q.1.prefix_renamed(avoid),
                            funcs,
                            preds,
                            env.insert(q.0, d),
                        );
                    assert(is_value(d) && holds(*a, funcs, preds, env.insert(y, d)));
                }
                if holds(f, funcs, preds, env) {
                    let d = choose|d: D| #[trigger]
                        is_value(d) && holds(*a, funcs, preds, env.insert(y, d));
                    assert(is_value(d) && holds(
                        q.1.prefix_renamed(avoid),
                        funcs,
                        preds,
                        env.insert(q.0, d),
                    ));
                }
            } else {
                assert forall|d: D| #[trigger] is_value(d) implies holds(
                    a.prefix_renamed(avoid),
                    funcs,
                    preds,
                    env.insert(y, d),
                ) == holds(*a, funcs, preds, env.insert(y, d)) by {
                    lemma_prefix_renamed_meaning(*a, avoid, funcs, preds, env.insert(y, d));
                }
                if holds(f.prefix_renamed(avoid), funcs, preds, env) {
                    let d = choose|d: D| #[trigger]
                        is_value(d) && holds(
                            a.prefix_renamed(avoid),
                            funcs,
                            preds,
                            env.insert(y, d),
                        );
                    assert(is_value(d) && holds(*a, funcs, preds, env.insert(y, d)));
                }
                if holds(f, funcs, preds, env) {
                    let d = choose|d: D| #[trigger]
                        is_value(d) && holds(*a, funcs, preds, env.insert(y, d));
                    assert(is_value(d) && holds(
                        a.prefix_renamed(avoid),
                        funcs,
                        preds,
                        env.insert(y, d),
                    ));
                }
            }
        },
        _ => {},
    }
}

/// After the renaming no quantifier of the prefix binds a variable that
/// was to be avoided.
pub proof fn lemma_prefix_renamed_avoids(f: FormulaModel, avoid: Set<Seq<char>>)
    requires
        avoid.finite(),
    ensures
        f.prefix_renamed(avoid).prefix_vars().disjoint(avoid),
    decreases f.size(),
{
    match f {
        FormulaModel::ForAll(y, a) => {
            if avoid.contains(y) {
                let av = avoid.union(a.matrix().free_vars());
                lemma_free_finite(a.matrix());
                lemma_free_finite(*a);
                lemma_rename_binder_shape(y, *a, av);
                lemma_fresh_name_of(y, a.free_vars().union(av));
                lemma_prefix_renamed_avoids(rename_binder(y, *a, av).1, avoid);
            } else {
                lemma_prefix_renamed_avoids(*a, avoid);
            }
        },
        FormulaModel::Exists(y, a) => {
            if avoid.contains(y) {
                let av = avoid.union(a.matrix().free_vars());
                lemma_free_finite(a.matrix());
                lemma_free_finite(*a);
                lemma_rename_binder_shape(y, *a, av);
                lemma_fresh_name_of(y, a.free_vars().union(av));
                lemma_prefix_renamed_avoids(rename_binder(y, *a, av).1, avoid);
            } else {
                lemma_prefix_renamed_avoids(*a, avoid);
            }
        },
        _ => {},
    }
}

/// The join of two prenex formulas by a conjunction or disjunction means
/// what the connective over the two means, if no quantifier of the left
/// binds a free variable of the right.
pub proof fn lemma_prenex_join_meaning<D>(
    op: Connective,
    left: FormulaModel,
    right: FormulaModel,
    funcs: spec_fn(Seq<char>, Seq<D>) -> D,
    preds: spec_fn(Seq<char>, Seq<D>) -> bool,
    env: Map<Seq<char>, D>,
)
    requires
        op == Connective::And || op == Connective::Or,
        left.prefix_vars().disjoint(
            right.prefix_renamed(left.matrix().free_vars()).free_vars(),
        ),
    ensures
        holds(prenex_join(op, left, right), funcs, preds, env) == holds(
            op.apply(left, right),
            funcs,
            preds,
            env,
        ),
{
    let fl = left.matrix().free_vars();
    lemma_free_finite(left.matrix());
    let renamed = right.prefix_renamed(fl);
    let inner = renamed.with_matrix(op.apply(left.matrix(), renamed.matrix()));
    let middle = op.apply(left.matrix(), renamed);
    lemma_prefix_renamed_avoids(right, fl);
    assert(same_meaning(inner, middle, funcs, preds)) by {
        assert forall|e: Map<Seq<char>, D>| #[trigger] is_value(e) implies holds(
            inner,
            funcs,
            preds,
            e,
        ) == holds(middle, funcs, preds, e) by {
            lemma_prefix_moves_out(op, renamed, left.matrix(), funcs, preds, e);
        }
    }
    lemma_prefix_congruence(left, inner, middle, funcs, preds, env);
    lemma_prefix_moves_out(op, left, renamed, funcs, preds, env);
    lemma_prefix_renamed_meaning(right, fl, funcs, preds, env);
}

/// The prenex normal form means what the formula means, where the
/// quantifiers of the formula can move to the front.
pub proof fn lemma_pnf_meaning<D>(
    f: FormulaModel,
    funcs: spec_fn(Seq<char>, Seq<D>) -> D,
    preds: spec_fn(Seq<char>, Seq<D>) -> bool,
    env: Map<Seq<char>, D>,
)
    requires
        f.prenex_safe(),
    ensures
        holds(f.pnf(), funcs, preds, env) == holds(f, funcs, preds, env),
    decreases f,
{
    if f.quantifier_free() {
        lemma_pnf_quantifier_free(f);
    } else {
        match f {
            FormulaModel::And(a, b) => {
                lemma_pnf_meaning(*a, funcs, preds, env);
                lemma_pnf_meaning(*b, funcs, preds, env);
                lemma_prenex_join_meaning(Connective::And, a.pnf(), b.pnf(), funcs, preds, env);
            },
            FormulaModel::Or(a, b) => {
                lemma_pnf_meaning(*a, funcs, preds, env);
                lemma_pnf_meaning(*b, funcs, preds, env);
                lemma_prenex_join_meaning(Connective::Or, a.pnf(), b.pnf(), funcs, preds, env);
            },
            FormulaModel::ForAll(x, a) => {
                assert forall|d: D| #[trigger] is_value(d) implies holds(
                    a.pnf(),
                    funcs,
                    preds,
                    env.insert(x, d),
                ) == holds(*a, funcs, preds, env.insert(x, d)) by {
                    lemma_pnf_meaning(*a, funcs, preds, env.insert(x, d));
                }
            },
            FormulaModel::Exists(x, a) => {
                assert forall|d: D| #[trigger] is_value(d) implies holds(
                    a.pnf(),
                    funcs,
                    preds,
                    env.insert(x, d),
                ) == holds(*a, funcs, preds, env.insert(x, d)) by {
                    lemma_pnf_meaning(*a, funcs, preds, env.insert(x, d));
                }
                if holds(f.pnf(), funcs, preds, env) {
                    let d = choose|d: D| #[trigger]
                        is_value(d) && holds(a.pnf(), funcs, preds, env.insert(x, d));
                    assert(is_value(d) && holds(*a, funcs, preds, env.insert(x, d)));
                }
                if holds(f, funcs, preds, env) {
                    let d = choose|d: D| #[trigger]
                        is_value(d) && holds(*a, funcs, preds, env.insert(x, d));
                    assert(is_value(d) && holds(a.pnf(), funcs, preds, env.insert(x, d)));
                }
            },
            _ => {},
        }
    }
}

/// What holds of all values holds of the values at hand: where a formula
/// with universal quantifiers in front holds, its matrix holds under the
/// same assignment.
pub proof fn lemma_matrix_implied<D>(
    f: FormulaModel,
    funcs: spec_fn(Seq<char>, Seq<D>) -> D,
    preds: spec_fn(Seq<char>, Seq<D>) -> bool,
    env: Map<Seq<char>, D>,
)
    requires
        f.prefix_exists() == 0,
        holds(f, funcs, preds, env),
    ensures
        holds(f.matrix(), funcs, preds, env),
    decreases f,
{
    match f {
        FormulaModel::ForAll(x, a) => {
            let d = lookup(env, funcs, x);
            assert(is_value(d) ==> holds(*a, funcs, preds, env.insert(x, d)));
            assert(agree(env.insert(x, d), env, funcs, a.free_vars()));
            lemma_holds_coincides(*a, funcs, preds, env.insert(x, d), env);
            lemma_matrix_implied(*a, funcs, preds, env);
        },
        _ => {},
    }
}

} // verus!
