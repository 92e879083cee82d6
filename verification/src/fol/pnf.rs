use vstd::prelude::*;
use crate::fol::ast::{And, Exists, ForAll, Formula, FormulaModel, Iff, Implies, Nnf, Not, Or, Pnf};
use crate::fol::subst::{lemma_rename_binder_shape, rename_binder, renamed_binder};
use crate::fol::free::VarSet;

verus! {

/// The binary connectives.
#[derive(Debug, Clone, Copy, PartialEq, Eq)]
pub enum Connective {
    And,
    Or,
    Implies,
    Iff,
}

impl Connective {
    /// The formula that joins `a` and `b` by the connective.
    pub open spec fn apply(self, a: FormulaModel, b: FormulaModel) -> FormulaModel {
        match self {
            Connective::And => FormulaModel::And(Box::new(a), Box::new(b)),
            Connective::Or => FormulaModel::Or(Box::new(a), Box::new(b)),
            Connective::Implies => FormulaModel::Implies(Box::new(a), Box::new(b)),
            Connective::Iff => FormulaModel::Iff(Box::new(a), Box::new(b)),
        }
    }

    /// Joins two formulas by the connective.
    pub fn connect<S>(self, a: Formula<S>, b: Formula<S>) -> (f: Formula<S>)
        ensures
            f@ == self.apply(a@, b@),
    {
        match self {
            Connective::And => Formula::and(a, b),
            Connective::Or => Formula::or(a, b),
            Connective::Implies => Formula::implies(a, b),
            Connective::Iff => Formula::iff(a, b),
        }
    }
}

impl FormulaModel {
    /// The leading quantifiers of the formula, in front of `m` in place of
    /// the matrix.
    pub open spec fn with_matrix(self, m: FormulaModel) -> FormulaModel
        decreases self,
    {
        match self {
            FormulaModel::ForAll(x, a) => FormulaModel::ForAll(x, Box::new(a.with_matrix(m))),
            FormulaModel::Exists(x, a) => FormulaModel::Exists(x, Box::new(a.with_matrix(m))),
            _ => m,
        }
    }

    /// The formula with those of its leading quantifiers renamed that bind a
    /// name in `avoid`. Each such quantifier gets a fresh variable that is
    /// not in `avoid` and not free in the matrix below it, from the outermost
    /// quantifier inwards.
    pub open spec fn prefix_renamed(self, avoid: Set<Seq<char>>) -> FormulaModel
        decreases self.size(),
    {
        match self {
            FormulaModel::ForAll(y, a) => {
                if avoid.contains(y) {
                    let q = rename_binder(y, *a, avoid.union(a.matrix().free_vars()));
                    proof {
                        lemma_rename_binder_shape(y, *a, avoid.union(a.matrix().free_vars()));
                    }
                    FormulaModel::ForAll(q.0, Box::new(q.1.prefix_renamed(avoid)))
                } else {
                    FormulaModel::ForAll(y, Box::new(a.prefix_renamed(avoid)))
                }
            },
            FormulaModel::Exists(y, a) => {
                if avoid.contains(y) {
                    let q = rename_binder(y, *a, avoid.union(a.matrix().free_vars()));
                    proof {
                        lemma_rename_binder_shape(y, *a, avoid.union(a.matrix().free_vars()));
                    }
                    FormulaModel::Exists(q.0, Box::new(q.1.prefix_renamed(avoid)))
                } else {
                    FormulaModel::Exists(y, Box::new(a.prefix_renamed(avoid)))
                }
            },
            _ => self,
        }
    }

    /// The prenex normal form of the formula: all quantifiers in front, in
    /// the order in which they stand in the formula from left to right.
    pub open spec fn pnf(self) -> FormulaModel
        decreases self,
    {
        match self {
            FormulaModel::Pred(_, _) => self,
            FormulaModel::Not(a) => a.pnf().with_matrix(
                FormulaModel::Not(Box::new(a.pnf().matrix())),
            ),
            FormulaModel::And(a, b) => prenex_join(Connective::And, a.pnf(), b.pnf()),
            FormulaModel::Or(a, b) => prenex_join(Connective::Or, a.pnf(), b.pnf()),
            FormulaModel::Implies(a, b) => prenex_join(Connective::Implies, a.pnf(), b.pnf()),
            FormulaModel::Iff(a, b) => prenex_join(Connective::Iff, a.pnf(), b.pnf()),
            FormulaModel::ForAll(x, a) => FormulaModel::ForAll(x, Box::new(a.pnf())),
            FormulaModel::Exists(x, a) => FormulaModel::Exists(x, Box::new(a.pnf())),
            FormulaModel::Dummy => self,
        }
    }
}

/// Two prenex formulas joined by a connective. The quantifiers of the left
/// come first, then those of the right, then the connective over the two
/// matrices. Before that, each quantifier of the right that binds a free
/// variable of the left matrix is renamed.
pub open spec fn prenex_join(op: Connective, left: FormulaModel, right: FormulaModel) -> FormulaModel {
    let renamed = right.prefix_renamed(left.matrix().free_vars());
    left.with_matrix(renamed.with_matrix(op.apply(left.matrix(), renamed.matrix())))
}

/// What stands under a prefix is what was put there.
pub proof fn lemma_with_matrix(p: FormulaModel, m: FormulaModel)
    ensures
        p.with_matrix(m).matrix() == m.matrix(),
        p.with_matrix(m).is_pnf() == m.is_pnf(),
        p.with_matrix(m).is_nnf() == m.is_nnf(),
        p.with_matrix(m).well_formed() == m.well_formed(),
    decreases p,
{
    match p {
        FormulaModel::ForAll(_, a) => {
            lemma_with_matrix(*a, m);
        },
        FormulaModel::Exists(_, a) => {
            lemma_with_matrix(*a, m);
        },
        _ => {},
    }
}

/// The matrix of a formula in negation normal form is in that form too, and
/// the matrix of a formula without placeholder holds none.
pub proof fn lemma_matrix_shape(f: FormulaModel)
    ensures
        f.is_nnf() == f.matrix().is_nnf(),
        f.well_formed() == f.matrix().well_formed(),
        f.matrix().matrix() == f.matrix(),
        !(f.matrix() is ForAll),
        !(f.matrix() is Exists),
        f.matrix().size() <= f.size(),
    decreases f,
{
    match f {
        FormulaModel::ForAll(_, a) => {
            lemma_matrix_shape(*a);
        },
        FormulaModel::Exists(_, a) => {
            lemma_matrix_shape(*a);
        },
        _ => {},
    }
}

/// Renaming quantifiers of the prefix keeps the size and the shape.
pub proof fn lemma_prefix_renamed_shape(f: FormulaModel, avoid: Set<Seq<char>>)
    ensures
        f.prefix_renamed(avoid).size() == f.size(),
        f.prefix_renamed(avoid).is_pnf() == f.is_pnf(),
        f.prefix_renamed(avoid).is_nnf() == f.is_nnf(),
        f.prefix_renamed(avoid).well_formed() == f.well_formed(),
    decreases f.size(),
{
    match f {
        FormulaModel::ForAll(y, a) => {
            if avoid.contains(y) {
                let av = avoid.union(a.matrix().free_vars());
                lemma_rename_binder_shape(y, *a, av);
                lemma_prefix_renamed_shape(rename_binder(y, *a, av).1, avoid);
            } else {
                lemma_prefix_renamed_shape(*a, avoid);
            }
        },
        FormulaModel::Exists(y, a) => {
            if avoid.contains(y) {
                let av = avoid.union(a.matrix().free_vars());
                lemma_rename_binder_shape(y, *a, av);
                lemma_prefix_renamed_shape(rename_binder(y, *a, av).1, avoid);
            } else {
                lemma_prefix_renamed_shape(*a, avoid);
            }
        },
        _ => {},
    }
}

/// Shape of a join: it is prenex if both sides are, and for a conjunction
/// or disjunction it is in negation normal form if both sides are.
pub proof fn lemma_prenex_join_shape(op: Connective, left: FormulaModel, right: FormulaModel)
    requires
        left.is_pnf(),
        right.is_pnf(),
    ensures
        prenex_join(op, left, right).is_pnf(),
        left.is_nnf() && right.is_nnf() && (op == Connective::And || op == Connective::Or)
            ==> prenex_join(op, left, right).is_nnf(),
        left.well_formed() && right.well_formed() ==> prenex_join(op, left, right).well_formed(),
{
    let renamed = right.prefix_renamed(left.matrix().free_vars());
    let body = op.apply(left.matrix(), renamed.matrix());
    lemma_prefix_renamed_shape(right, left.matrix().free_vars());
    lemma_matrix_shape(left);
    lemma_matrix_shape(renamed);
    lemma_with_matrix(renamed, body);
    lemma_with_matrix(left, renamed.with_matrix(body));
}

/// Shape of the prenex normal form: a prefix of quantifiers over a matrix
/// without quantifiers. The negation normal form is kept, and no
/// placeholder appears.
pub proof fn lemma_pnf_shape(f: FormulaModel)
    ensures
        f.pnf().is_pnf(),
        f.is_nnf() ==> f.pnf().is_nnf(),
        f.well_formed() ==> f.pnf().well_formed(),
    decreases f,
{
    match f {
        FormulaModel::Pred(_, _) => {},
        FormulaModel::Not(a) => {
            lemma_pnf_shape(*a);
            let p = a.pnf();
            let m = FormulaModel::Not(Box::new(p.matrix()));
            lemma_with_matrix(p, m);
            lemma_matrix_shape(p);
        },
        FormulaModel::And(a, b) => {
            lemma_pnf_shape(*a);
            lemma_pnf_shape(*b);
            lemma_prenex_join_shape(Connective::And, a.pnf(), b.pnf());
        },
        FormulaModel::Or(a, b) => {
            lemma_pnf_shape(*a);
            lemma_pnf_shape(*b);
            lemma_prenex_join_shape(Connective::Or, a.pnf(), b.pnf());
        },
        FormulaModel::Implies(a, b) => {
            lemma_pnf_shape(*a);
            lemma_pnf_shape(*b);
            lemma_prenex_join_shape(Connective::Implies, a.pnf(), b.pnf());
        },
        FormulaModel::Iff(a, b) => {
            lemma_pnf_shape(*a);
            lemma_pnf_shape(*b);
            lemma_prenex_join_shape(Connective::Iff, a.pnf(), b.pnf());
        },
        FormulaModel::ForAll(_, a) => {
            lemma_pnf_shape(*a);
        },
        FormulaModel::Exists(_, a) => {
            lemma_pnf_shape(*a);
        },
        FormulaModel::Dummy => {},
    }
}

/// A formula without quantifiers has no prefix.
pub proof fn lemma_no_prefix(f: FormulaModel, m: FormulaModel, avoid: Set<Seq<char>>)
    requires
        f.quantifier_free(),
    ensures
        f.matrix() == f,
        f.with_matrix(m) == m,
        f.prefix_renamed(avoid) == f,
        f.prefix_exists() == 0,
{
}

/// A formula without quantifiers is its own prenex normal form.
pub proof fn lemma_pnf_quantifier_free(f: FormulaModel)
    requires
        f.quantifier_free(),
    ensures
        f.pnf() == f,
    decreases f,
{
    let none = Set::<Seq<char>>::empty();
    match f {
        FormulaModel::Not(a) => {
            lemma_no_prefix(*a, FormulaModel::Not(a), none);
        },
        FormulaModel::And(a, b) => {
            lemma_no_prefix(*b, f, a.free_vars());
            lemma_no_prefix(*a, f, none);
        },
        FormulaModel::Or(a, b) => {
            lemma_no_prefix(*b, f, a.free_vars());
            lemma_no_prefix(*a, f, none);
        },
        FormulaModel::Implies(a, b) => {
            lemma_no_prefix(*b, f, a.free_vars());
            lemma_no_prefix(*a, f, none);
        },
        FormulaModel::Iff(a, b) => {
            lemma_no_prefix(*b, f, a.free_vars());
            lemma_no_prefix(*a, f, none);
        },
        _ => {},
    }
    match f {
        FormulaModel::Not(a) => {
            lemma_pnf_quantifier_free(*a);
        },
        FormulaModel::And(a, b) => {
            lemma_pnf_quantifier_free(*a);
            lemma_pnf_quantifier_free(*b);
        },
        FormulaModel::Or(a, b) => {
            lemma_pnf_quantifier_free(*a);
            lemma_pnf_quantifier_free(*b);
        },
        FormulaModel::Implies(a, b) => {
            lemma_pnf_quantifier_free(*a);
            lemma_pnf_quantifier_free(*b);
        },
        FormulaModel::Iff(a, b) => {
            lemma_pnf_quantifier_free(*a);
            lemma_pnf_quantifier_free(*b);
        },
        _ => {},
    }
}

/// What is left of the formula below its leading quantifiers.
pub fn first_non_quantified<S>(formula: &Formula<S>) -> (matrix: &Formula<S>)
    ensures
        matrix@ == formula@.matrix(),
    decreases formula,
{
    match formula {
        Formula::ForAll(forall) => first_non_quantified(&*forall.formula),
        Formula::Exists(exists) => first_non_quantified(&*exists.formula),
        _ => formula,
    }
}

/// The leading quantifiers of `formula1` in front of `formula2`.
pub fn merge_pnfs(formula1: Formula<Pnf>, formula2: Formula<Pnf>) -> (out: Formula<Pnf>)
    ensures
        out@ == formula1@.with_matrix(formula2@),
    decreases formula1,
{
    match formula1 {
        Formula::ForAll(ForAll { var, formula, .. }) => Formula::for_all(
            var,
            merge_pnfs(*formula, formula2),
        ),
        Formula::Exists(Exists { var, formula, .. }) => Formula::there_exists(
            var,
            merge_pnfs(*formula, formula2),
        ),
        _ => formula2,
    }
}

/// Renames those leading quantifiers of `formula` that bind a name in
/// `avoid`, from the outermost inwards.
pub fn rename_prefix(formula: Formula<Pnf>, avoid: &VarSet) -> (out: Formula<Pnf>)
    ensures
        out@ == formula@.prefix_renamed(avoid@),
    decreases formula@.size(),
{
    match formula {
        Formula::ForAll(ForAll { var, formula, .. }) => {
            if avoid.contains(&var) {
                let mut taken = first_non_quantified(&*formula).free_vars();
                let ghost matrix_vars = taken@;
                taken.extend(avoid);
                assert(taken@ =~= avoid@.union(matrix_vars));
                let q = renamed_binder(&var, &*formula, &taken);
                proof {
                    lemma_rename_binder_shape(var@, formula@, taken@);
                }
                Formula::for_all(q.0, rename_prefix(q.1, avoid))
            } else {
                Formula::for_all(var, rename_prefix(*formula, avoid))
            }
        },
        Formula::Exists(Exists { var, formula, .. }) => {
            if avoid.contains(&var) {
                let mut taken = first_non_quantified(&*formula).free_vars();
                let ghost matrix_vars = taken@;
                taken.extend(avoid);
                assert(taken@ =~= avoid@.union(matrix_vars));
                let q = renamed_binder(&var, &*formula, &taken);
                proof {
                    lemma_rename_binder_shape(var@, formula@, taken@);
                }
                Formula::there_exists(q.0, rename_prefix(q.1, avoid))
            } else {
                Formula::there_exists(var, rename_prefix(*formula, avoid))
            }
        },
        other => other,
    }
}

/// The prenex normal form of the negation of `child`: the quantifiers of
/// the prenex normal form of `child`, over the negation of its matrix.
pub fn pnf_unop(child: Formula<Nnf>) -> (out: Formula<Pnf>)
    ensures
        out@ == FormulaModel::Not(Box::new(child@)).pnf(),
    decreases child@.size(), 1nat,
{
    let child_pnfed = to_pnf(child);
    let body = Formula::not(first_non_quantified(&child_pnfed).clone());
    merge_pnfs(child_pnfed, body)
}

/// The prenex normal form of `left` and `right` joined by `binop`.
pub fn pnf_binop(binop: Connective, left: Formula<Nnf>, right: Formula<Nnf>) -> (out: Formula<Pnf>)
    ensures
        out@ == prenex_join(binop, left@.pnf(), right@.pnf()),
    decreases left@.size() + right@.size(), 1nat,
{
    let left_pnfed = to_pnf(left);
    let right_pnfed = to_pnf(right);
    let left_vars = first_non_quantified(&left_pnfed).free_vars();
    let right_renamed = rename_prefix(right_pnfed, &left_vars);
    let new_body = binop.connect(
        first_non_quantified(&left_pnfed).clone(),
        first_non_quantified(&right_renamed).clone(),
    );
    merge_pnfs(left_pnfed, merge_pnfs(right_renamed, new_body))
}

/// The prenex normal form of a formula: every quantifier is moved to the
/// front, and bound variables are renamed where a free variable would be
/// captured.
pub fn to_pnf(formula: Formula<Nnf>) -> (out: Formula<Pnf>)
    ensures
        out@ == formula@.pnf(),
        out@.is_pnf(),
        formula@.is_nnf() ==> out@.is_nnf(),
        formula@.well_formed() ==> out@.well_formed(),
    decreases formula@.size(), 0nat,
{
    proof {
        lemma_pnf_shape(formula@);
    }
    match formula {
        Formula::ForAll(ForAll { var, formula, .. }) => Formula::for_all(var, to_pnf(*formula)),
        Formula::Exists(Exists { var, formula, .. }) => Formula::there_exists(
            var,
            to_pnf(*formula),
        ),
        Formula::Implies(Implies { formula1, formula2, .. }) => pnf_binop(
            Connective::Implies,
            *formula1,
            *formula2,
        ),
        Formula::Iff(Iff { formula1, formula2, .. }) => pnf_binop(
            Connective::Iff,
            *formula1,
            *formula2,
        ),
        Formula::And(And { formula1, formula2, .. }) => pnf_binop(
            Connective::And,
            *formula1,
            *formula2,
        ),
        Formula::Or(Or { formula1, formula2, .. }) => pnf_binop(
            Connective::Or,
            *formula1,
            *formula2,
        ),
        Formula::Not(Not { formula, .. }) => pnf_unop(*formula),
        Formula::Pred(pred) => Formula::Pred(pred).cast(),
        Formula::Dummy => Formula::Dummy,
    }
}

impl Formula<Nnf> {
    /// The prenex normal form of the formula.
    pub fn to_pnf(self) -> (out: Formula<Pnf>)
        ensures
            out@ == self@.pnf(),
            out@.is_pnf(),
            self@.is_nnf() ==> out@.is_nnf(),
            self@.well_formed() ==> out@.well_formed(),
    {
        to_pnf(self)
    }
}

} // verus!
