use vstd::prelude::*;
use crate::fol::ast::{
    And, Exists, ForAll, Formula, FormulaModel, Iff, Implies, Nnf, Not, Or, Raw,
};

verus! {

impl FormulaModel {
    /// The negation normal form of the formula: implications and
    /// biconditionals are written with conjunction, disjunction and
    /// negation, and every negation is moved inwards until it stands in
    /// front of a leaf.
    pub open spec fn nnf(self) -> FormulaModel
        decreases self,
    {
        match self {
            FormulaModel::Pred(_, _) => self,
            FormulaModel::Not(a) => a.nnf_neg(),
            FormulaModel::And(a, b) => FormulaModel::And(Box::new(a.nnf()), Box::new(b.nnf())),
            FormulaModel::Or(a, b) => FormulaModel::Or(Box::new(a.nnf()), Box::new(b.nnf())),
            FormulaModel::Implies(a, b) => FormulaModel::Or(
                Box::new(a.nnf_neg()),
                Box::new(b.nnf()),
            ),
            FormulaModel::Iff(a, b) => FormulaModel::Or(
                Box::new(FormulaModel::And(Box::new(a.nnf()), Box::new(b.nnf()))),
                Box::new(FormulaModel::And(Box::new(a.nnf_neg()), Box::new(b.nnf_neg()))),
            ),
            FormulaModel::ForAll(x, a) => FormulaModel::ForAll(x, Box::new(a.nnf())),
            FormulaModel::Exists(x, a) => FormulaModel::Exists(x, Box::new(a.nnf())),
            FormulaModel::Dummy => self,
        }
    }

    /// The negation normal form of the negation of the formula.
    pub open spec fn nnf_neg(self) -> FormulaModel
        decreases self,
    {
        match self {
            FormulaModel::Pred(_, _) => FormulaModel::Not(Box::new(self)),
            FormulaModel::Not(a) => a.nnf(),
            FormulaModel::And(a, b) => FormulaModel::Or(
                Box::new(a.nnf_neg()),
                Box::new(b.nnf_neg()),
            ),
            FormulaModel::Or(a, b) => FormulaModel::And(
                Box::new(a.nnf_neg()),
                Box::new(b.nnf_neg()),
            ),
            FormulaModel::Implies(a, b) => FormulaModel::And(
                Box::new(a.nnf()),
                Box::new(b.nnf_neg()),
            ),
            FormulaModel::Iff(a, b) => FormulaModel::And(
                Box::new(FormulaModel::Or(Box::new(a.nnf_neg()), Box::new(b.nnf_neg()))),
                Box::new(FormulaModel::Or(Box::new(a.nnf()), Box::new(b.nnf()))),
            ),
            FormulaModel::ForAll(x, a) => FormulaModel::Exists(x, Box::new(a.nnf_neg())),
            FormulaModel::Exists(x, a) => FormulaModel::ForAll(x, Box::new(a.nnf_neg())),
            FormulaModel::Dummy => FormulaModel::Not(Box::new(self)),
        }
    }

    /// The formula without arrows: `A -> B` becomes `not A or B`, and
    /// `A <-> B` becomes `(A and B) or (not A and not B)`.
    pub open spec fn without_arrows(self) -> FormulaModel
        decreases self,
    {
        match self {
            FormulaModel::Pred(_, _) => self,
            FormulaModel::Not(a) => FormulaModel::Not(Box::new(a.without_arrows())),
            FormulaModel::And(a, b) => FormulaModel::And(
                Box::new(a.without_arrows()),
                Box::new(b.without_arrows()),
            ),
            FormulaModel::Or(a, b) => FormulaModel::Or(
                Box::new(a.without_arrows()),
                Box::new(b.without_arrows()),
            ),
            FormulaModel::Implies(a, b) => FormulaModel::Or(
                Box::new(FormulaModel::Not(Box::new(a.without_arrows()))),
                Box::new(b.without_arrows()),
            ),
            FormulaModel::Iff(a, b) => FormulaModel::Or(
                Box::new(
                    FormulaModel::And(Box::new(a.without_arrows()), Box::new(b.without_arrows())),
                ),
                Box::new(
                    FormulaModel::And(
                        Box::new(FormulaModel::Not(Box::new(a.without_arrows()))),
                        Box::new(FormulaModel::Not(Box::new(b.without_arrows()))),
                    ),
                ),
            ),
            FormulaModel::ForAll(x, a) => FormulaModel::ForAll(x, Box::new(a.without_arrows())),
            FormulaModel::Exists(x, a) => FormulaModel::Exists(x, Box::new(a.without_arrows())),
            FormulaModel::Dummy => self,
        }
    }

    /// One pass that moves negations one step inwards: over a conjunction, a
    /// disjunction or a quantifier by the laws of De Morgan, and a double
    /// negation is dropped.
    pub open spec fn negations_pushed(self) -> FormulaModel
        decreases self,
    {
        match self {
            FormulaModel::Pred(_, _) => self,
            FormulaModel::Not(a) => match *a {
                FormulaModel::And(b, c) => FormulaModel::Or(
                    Box::new(FormulaModel::Not(Box::new(b.negations_pushed()))),
                    Box::new(FormulaModel::Not(Box::new(c.negations_pushed()))),
                ),
                FormulaModel::Or(b, c) => FormulaModel::And(
                    Box::new(FormulaModel::Not(Box::new(b.negations_pushed()))),
                    Box::new(FormulaModel::Not(Box::new(c.negations_pushed()))),
                ),
                FormulaModel::ForAll(x, b) => FormulaModel::Exists(
                    x,
                    Box::new(FormulaModel::Not(Box::new(b.negations_pushed()))),
                ),
                FormulaModel::Exists(x, b) => FormulaModel::ForAll(
                    x,
                    Box::new(FormulaModel::Not(Box::new(b.negations_pushed()))),
                ),
                FormulaModel::Not(b) => b.negations_pushed(),
                FormulaModel::Implies(b, c) => FormulaModel::Not(
                    Box::new(
                        FormulaModel::Implies(
                            Box::new(b.negations_pushed()),
                            Box::new(c.negations_pushed()),
                        ),
                    ),
                ),
                FormulaModel::Iff(b, c) => FormulaModel::Not(
                    Box::new(
                        FormulaModel::Iff(
                            Box::new(b.negations_pushed()),
                            Box::new(c.negations_pushed()),
                        ),
                    ),
                ),
                FormulaModel::Pred(_, _) => self,
                FormulaModel::Dummy => self,
            },
            FormulaModel::And(a, b) => FormulaModel::And(
                Box::new(a.negations_pushed()),
                Box::new(b.negations_pushed()),
            ),
            FormulaModel::Or(a, b) => FormulaModel::Or(
                Box::new(a.negations_pushed()),
                Box::new(b.negations_pushed()),
            ),
            FormulaModel::Implies(a, b) => FormulaModel::Implies(
                Box::new(a.negations_pushed()),
                Box::new(b.negations_pushed()),
            ),
            FormulaModel::Iff(a, b) => FormulaModel::Iff(
                Box::new(a.negations_pushed()),
                Box::new(b.negations_pushed()),
            ),
            FormulaModel::ForAll(x, a) => FormulaModel::ForAll(x, Box::new(a.negations_pushed())),
            FormulaModel::Exists(x, a) => FormulaModel::Exists(x, Box::new(a.negations_pushed())),
            FormulaModel::Dummy => self,
        }
    }

    /// Whether a pass of `negations_pushed` applies a law of De Morgan
    /// somewhere in the formula.
    pub open spec fn has_push(self) -> bool
        decreases self,
    {
        match self {
            FormulaModel::Pred(_, _) => false,
            FormulaModel::Not(a) => match *a {
                FormulaModel::And(_, _) => true,
                FormulaModel::Or(_, _) => true,
                FormulaModel::ForAll(_, _) => true,
                FormulaModel::Exists(_, _) => true,
                FormulaModel::Not(b) => b.has_push(),
                FormulaModel::Implies(b, c) => b.has_push() || c.has_push(),
                FormulaModel::Iff(b, c) => b.has_push() || c.has_push(),
                FormulaModel::Pred(_, _) => false,
                FormulaModel::Dummy => false,
            },
            FormulaModel::And(a, b) => a.has_push() || b.has_push(),
            FormulaModel::Or(a, b) => a.has_push() || b.has_push(),
            FormulaModel::Implies(a, b) => a.has_push() || b.has_push(),
            FormulaModel::Iff(a, b) => a.has_push() || b.has_push(),
            FormulaModel::ForAll(_, a) => a.has_push(),
            FormulaModel::Exists(_, a) => a.has_push(),
            FormulaModel::Dummy => false,
        }
    }

    /// The number of connectives and quantifiers other than negations.
    pub open spec fn weight(self) -> nat
        decreases self,
    {
        match self {
            FormulaModel::Pred(_, _) => 0,
            FormulaModel::Not(a) => a.weight(),
            FormulaModel::And(a, b) => 1 + a.weight() + b.weight(),
            FormulaModel::Or(a, b) => 1 + a.weight() + b.weight(),
            FormulaModel::Implies(a, b) => 1 + a.weight() + b.weight(),
            FormulaModel::Iff(a, b) => 1 + a.weight() + b.weight(),
            FormulaModel::ForAll(_, a) => 1 + a.weight(),
            FormulaModel::Exists(_, a) => 1 + a.weight(),
            FormulaModel::Dummy => 0,
        }
    }

    /// How far the negations are from the leaves: the sum, over the
    /// negations of the formula, of the weight of what each one negates.
    pub open spec fn negation_depth(self) -> nat
        decreases self,
    {
        match self {
            FormulaModel::Pred(_, _) => 0,
            FormulaModel::Not(a) => a.weight() + a.negation_depth(),
            FormulaModel::And(a, b) => a.negation_depth() + b.negation_depth(),
            FormulaModel::Or(a, b) => a.negation_depth() + b.negation_depth(),
            FormulaModel::Implies(a, b) => a.negation_depth() + b.negation_depth(),
            FormulaModel::Iff(a, b) => a.negation_depth() + b.negation_depth(),
            FormulaModel::ForAll(_, a) => a.negation_depth(),
            FormulaModel::Exists(_, a) => a.negation_depth(),
            FormulaModel::Dummy => 0,
        }
    }
}

/// Shape of the negation normal form: on a formula without placeholder it
/// holds no implication and no biconditional, and every negation in it
/// stands directly in front of a predicate.
pub proof fn lemma_nnf_shape(f: FormulaModel)
    requires
        f.well_formed(),
    ensures
        f.nnf().is_nnf(),
        f.nnf_neg().is_nnf(),
        f.nnf().well_formed(),
        f.nnf_neg().well_formed(),
        f.nnf().arrow_free(),
        f.nnf_neg().arrow_free(),
    decreases f,
{
    reveal_with_fuel(FormulaModel::is_nnf, 3);
    reveal_with_fuel(FormulaModel::well_formed, 3);
    reveal_with_fuel(FormulaModel::arrow_free, 3);
    match f {
        FormulaModel::Pred(_, _) => {},
        FormulaModel::Not(a) => {
            lemma_nnf_shape(*a);
        },
        FormulaModel::And(a, b) => {
            lemma_nnf_shape(*a);
            lemma_nnf_shape(*b);
        },
        FormulaModel::Or(a, b) => {
            lemma_nnf_shape(*a);
            lemma_nnf_shape(*b);
        },
        FormulaModel::Implies(a, b) => {
            lemma_nnf_shape(*a);
            lemma_nnf_shape(*b);
        },
        FormulaModel::Iff(a, b) => {
            lemma_nnf_shape(*a);
            lemma_nnf_shape(*b);
        },
        FormulaModel::ForAll(_, a) => {
            lemma_nnf_shape(*a);
        },
        FormulaModel::Exists(_, a) => {
            lemma_nnf_shape(*a);
        },
        FormulaModel::Dummy => {},
    }
}

/// The negation normal form of a formula without quantifiers holds none.
pub proof fn lemma_nnf_quantifier_free(f: FormulaModel)
    requires
        f.quantifier_free(),
    ensures
        f.nnf().quantifier_free(),
        f.nnf_neg().quantifier_free(),
    decreases f,
{
    reveal_with_fuel(FormulaModel::quantifier_free, 3);
    match f {
        FormulaModel::Not(a) => {
            lemma_nnf_quantifier_free(*a);
        },
        FormulaModel::And(a, b) => {
            lemma_nnf_quantifier_free(*a);
            lemma_nnf_quantifier_free(*b);
        },
        FormulaModel::Or(a, b) => {
            lemma_nnf_quantifier_free(*a);
            lemma_nnf_quantifier_free(*b);
        },
        FormulaModel::Implies(a, b) => {
            lemma_nnf_quantifier_free(*a);
            lemma_nnf_quantifier_free(*b);
        },
        FormulaModel::Iff(a, b) => {
            lemma_nnf_quantifier_free(*a);
            lemma_nnf_quantifier_free(*b);
        },
        _ => {},
    }
}

/// A double negation leaves no trace in the negation normal form.
pub proof fn lemma_nnf_double_negation(f: FormulaModel)
    ensures
        FormulaModel::Not(Box::new(FormulaModel::Not(Box::new(f)))).nnf() == f.nnf(),
{
    reveal_with_fuel(FormulaModel::nnf, 2);
    reveal_with_fuel(FormulaModel::nnf_neg, 2);
}

/// Writing the arrows out does not change the negation normal form, and
/// leaves no arrow.
pub proof fn lemma_without_arrows(f: FormulaModel)
    ensures
        f.without_arrows().nnf() == f.nnf(),
        f.without_arrows().nnf_neg() == f.nnf_neg(),
        f.without_arrows().arrow_free(),
    decreases f,
{
    reveal_with_fuel(FormulaModel::nnf, 3);
    reveal_with_fuel(FormulaModel::nnf_neg, 3);
    reveal_with_fuel(FormulaModel::arrow_free, 3);
    match f {
        FormulaModel::Pred(_, _) => {},
        FormulaModel::Not(a) => {
            lemma_without_arrows(*a);
        },
        FormulaModel::And(a, b) => {
            lemma_without_arrows(*a);
            lemma_without_arrows(*b);
        },
        FormulaModel::Or(a, b) => {
            lemma_without_arrows(*a);
            lemma_without_arrows(*b);
        },
        FormulaModel::Implies(a, b) => {
            lemma_without_arrows(*a);
            lemma_without_arrows(*b);
        },
        FormulaModel::Iff(a, b) => {
            lemma_without_arrows(*a);
            lemma_without_arrows(*b);
        },
        FormulaModel::ForAll(_, a) => {
            lemma_without_arrows(*a);
        },
        FormulaModel::Exists(_, a) => {
            lemma_without_arrows(*a);
        },
        FormulaModel::Dummy => {},
    }
}

/// A pass of `negations_pushed` does not change the negation normal form;
/// it adds no arrow and no weight, and it brings the negations nearer to the
/// leaves wherever it applies a law of De Morgan.
pub proof fn lemma_negations_pushed(f: FormulaModel)
    ensures
        f.negations_pushed().nnf() == f.nnf(),
        f.negations_pushed().nnf_neg() == f.nnf_neg(),
        f.arrow_free() ==> f.negations_pushed().arrow_free(),
        f.negations_pushed().weight() == f.weight(),
        f.negations_pushed().negation_depth() <= f.negation_depth(),
        f.has_push() ==> f.negations_pushed().negation_depth() < f.negation_depth(),
    decreases f,
{
    reveal_with_fuel(FormulaModel::nnf, 3);
    reveal_with_fuel(FormulaModel::nnf_neg, 3);
    reveal_with_fuel(FormulaModel::negations_pushed, 2);
    reveal_with_fuel(FormulaModel::has_push, 2);
    reveal_with_fuel(FormulaModel::weight, 3);
    reveal_with_fuel(FormulaModel::negation_depth, 3);
    reveal_with_fuel(FormulaModel::arrow_free, 3);
    match f {
        FormulaModel::Pred(_, _) => {},
        FormulaModel::Not(a) => {
            match *a {
                FormulaModel::And(b, c) => {
                    lemma_negations_pushed(*b);
                    lemma_negations_pushed(*c);
                },
                FormulaModel::Or(b, c) => {
                    lemma_negations_pushed(*b);
                    lemma_negations_pushed(*c);
                },
                FormulaModel::ForAll(_, b) => {
                    lemma_negations_pushed(*b);
                },
                FormulaModel::Exists(_, b) => {
                    lemma_negations_pushed(*b);
                },
                FormulaModel::Not(b) => {
                    lemma_negations_pushed(*b);
                },
                FormulaModel::Implies(b, c) => {
                    lemma_negations_pushed(*b);
                    lemma_negations_pushed(*c);
                },
                FormulaModel::Iff(b, c) => {
                    lemma_negations_pushed(*b);
                    lemma_negations_pushed(*c);
                },
                FormulaModel::Pred(_, _) => {},
                FormulaModel::Dummy => {},
            }
        },
        FormulaModel::And(a, b) => {
            lemma_negations_pushed(*a);
            lemma_negations_pushed(*b);
        },
        FormulaModel::Or(a, b) => {
            lemma_negations_pushed(*a);
            lemma_negations_pushed(*b);
        },
        FormulaModel::Implies(a, b) => {
            lemma_negations_pushed(*a);
            lemma_negations_pushed(*b);
        },
        FormulaModel::Iff(a, b) => {
            lemma_negations_pushed(*a);
            lemma_negations_pushed(*b);
        },
        FormulaModel::ForAll(_, a) => {
            lemma_negations_pushed(*a);
        },
        FormulaModel::Exists(_, a) => {
            lemma_negations_pushed(*a);
        },
        FormulaModel::Dummy => {},
    }
}

/// On a formula without arrows, a pass that applies no law of De Morgan
/// ends in the negation normal form.
pub proof fn lemma_last_pass(f: FormulaModel)
    requires
        f.arrow_free(),
        !f.has_push(),
    ensures
        f.negations_pushed() == f.nnf(),
    decreases f,
{
    reveal_with_fuel(FormulaModel::nnf, 3);
    reveal_with_fuel(FormulaModel::nnf_neg, 3);
    reveal_with_fuel(FormulaModel::negations_pushed, 2);
    reveal_with_fuel(FormulaModel::has_push, 2);
    reveal_with_fuel(FormulaModel::weight, 3);
    reveal_with_fuel(FormulaModel::negation_depth, 3);
    reveal_with_fuel(FormulaModel::arrow_free, 3);
    match f {
        FormulaModel::Pred(_, _) => {},
        FormulaModel::Not(a) => {
            match *a {
                FormulaModel::Not(b) => {
                    lemma_last_pass(*b);
                },
                _ => {},
            }
        },
        FormulaModel::And(a, b) => {
            lemma_last_pass(*a);
            lemma_last_pass(*b);
        },
        FormulaModel::Or(a, b) => {
            lemma_last_pass(*a);
            lemma_last_pass(*b);
        },
        FormulaModel::Implies(_, _) => {},
        FormulaModel::Iff(_, _) => {},
        FormulaModel::ForAll(_, a) => {
            lemma_last_pass(*a);
        },
        FormulaModel::Exists(_, a) => {
            lemma_last_pass(*a);
        },
        FormulaModel::Dummy => {},
    }
}

/// Writes the arrows out: `A -> B` becomes `not A or B`, and `A <-> B`
/// becomes `(A and B) or (not A and not B)`.
pub fn eliminate_arrows(formula: Formula<Raw>) -> (out: Formula<Raw>)
    ensures
        out@ == formula@.without_arrows(),
    decreases formula,
{
    match formula {
        Formula::Implies(Implies { formula1, formula2, .. }) => Formula::or(
            Formula::not(eliminate_arrows(*formula1)),
            eliminate_arrows(*formula2),
        ),
        Formula::Iff(Iff { formula1, formula2, .. }) => {
            let formula1_noarrow = eliminate_arrows(*formula1);
            let formula2_noarrow = eliminate_arrows(*formula2);
            Formula::or(
                Formula::and(formula1_noarrow.clone(), formula2_noarrow.clone()),
                Formula::and(Formula::not(formula1_noarrow), Formula::not(formula2_noarrow)),
            )
        },
        Formula::Not(Not { formula, .. }) => Formula::not(eliminate_arrows(*formula)),
        Formula::And(And { formula1, formula2, .. }) => Formula::and(
            eliminate_arrows(*formula1),
            eliminate_arrows(*formula2),
        ),
        Formula::Or(Or { formula1, formula2, .. }) => Formula::or(
            eliminate_arrows(*formula1),
            eliminate_arrows(*formula2),
        ),
        Formula::ForAll(ForAll { var, formula, .. }) => Formula::for_all(
            var,
            eliminate_arrows(*formula),
        ),
        Formula::Exists(Exists { var, formula, .. }) => Formula::there_exists(
            var,
            eliminate_arrows(*formula),
        ),
        Formula::Pred(pred) => Formula::Pred(pred),
        Formula::Dummy => Formula::Dummy,
    }
}

/// One pass that moves negations one step inwards. `pushed` is set where a
/// law of De Morgan was applied, and left as it was elsewhere.
pub fn push_negations(formula: Formula<Raw>, pushed: &mut bool) -> (out: Formula<Raw>)
    ensures
        out@ == formula@.negations_pushed(),
        *final(pushed) == (*old(pushed) || formula@.has_push()),
    decreases formula,
{
    proof {
        reveal_with_fuel(FormulaModel::negations_pushed, 2);
        reveal_with_fuel(FormulaModel::has_push, 2);
    }
    match formula {
        Formula::Not(Not { formula, .. }) => {
            let ghost inner = (*formula)@;
            match *formula {
                Formula::And(And { formula1, formula2, .. }) => {
                    *pushed = true;
                    let left = push_negations(*formula1, pushed);
                    let right = push_negations(*formula2, pushed);
                    Formula::or(Formula::not(left), Formula::not(right))
                },
                Formula::Or(Or { formula1, formula2, .. }) => {
                    *pushed = true;
                    let left = push_negations(*formula1, pushed);
                    let right = push_negations(*formula2, pushed);
                    Formula::and(Formula::not(left), Formula::not(right))
                },
                Formula::ForAll(ForAll { var, formula, .. }) => {
                    *pushed = true;
                    let inner = push_negations(*formula, pushed);
                    Formula::there_exists(var, Formula::not(inner))
                },
                Formula::Exists(Exists { var, formula, .. }) => {
                    *pushed = true;
                    let inner = push_negations(*formula, pushed);
                    Formula::for_all(var, Formula::not(inner))
                },
                Formula::Not(Not { formula, .. }) => push_negations(*formula, pushed),
                Formula::Implies(Implies { formula1, formula2, .. }) => {
                    let left = push_negations(*formula1, pushed);
                    let right = push_negations(*formula2, pushed);
                    Formula::not(Formula::implies(left, right))
                },
                Formula::Iff(Iff { formula1, formula2, .. }) => {
                    let left = push_negations(*formula1, pushed);
                    let right = push_negations(*formula2, pushed);
                    Formula::not(Formula::iff(left, right))
                },
                Formula::Pred(pred) => Formula::not(Formula::Pred(pred)),
                Formula::Dummy => Formula::not(Formula::Dummy),
            }
        },
        Formula::And(And { formula1, formula2, .. }) => {
            let left = push_negations(*formula1, pushed);
            let right = push_negations(*formula2, pushed);
            Formula::and(left, right)
        },
        Formula::Or(Or { formula1, formula2, .. }) => {
            let left = push_negations(*formula1, pushed);
            let right = push_negations(*formula2, pushed);
            Formula::or(left, right)
        },
        Formula::ForAll(ForAll { var, formula, .. }) => Formula::for_all(
            var,
            push_negations(*formula, pushed),
        ),
        Formula::Exists(Exists { var, formula, .. }) => Formula::there_exists(
            var,
            push_negations(*formula, pushed),
        ),
        Formula::Implies(Implies { formula1, formula2, .. }) => {
            let left = push_negations(*formula1, pushed);
            let right = push_negations(*formula2, pushed);
            Formula::implies(left, right)
        },
        Formula::Iff(Iff { formula1, formula2, .. }) => {
            let left = push_negations(*formula1, pushed);
            let right = push_negations(*formula2, pushed);
            Formula::iff(left, right)
        },
        Formula::Pred(pred) => Formula::Pred(pred),
        Formula::Dummy => Formula::Dummy,
    }
}

/// The negation normal form of a formula. The arrows are written out, and
/// negations are pushed inwards, pass after pass, until a pass applies no
/// law of De Morgan.
pub fn to_nnf(formula: Formula<Raw>) -> (out: Formula<Nnf>)
    ensures
        out@ == formula@.nnf(),
        formula@.well_formed() ==> out@.is_nnf() && out@.well_formed(),
{
    proof {
        lemma_without_arrows(formula@);
    }
    let mut current = eliminate_arrows(formula);
    loop
        invariant
            current@.nnf() == formula@.nnf(),
            current@.arrow_free(),
        decreases current@.negation_depth(),
    {
        let mut pushed = false;
        proof {
            lemma_negations_pushed(current@);
        }
        let ghost before = current@;
        let next = push_negations(current, &mut pushed);
        if !pushed {
            proof {
                lemma_last_pass(before);
                if formula@.well_formed() {
                    lemma_nnf_shape(formula@);
                }
            }
            return next.cast();
        }
        current = next;
    }
}

impl Formula<Raw> {
    /// The negation normal form of the formula.
    pub fn to_nnf(self) -> (out: Formula<Nnf>)
        ensures
            out@ == self@.nnf(),
            self@.well_formed() ==> out@.is_nnf() && out@.well_formed(),
    {
        to_nnf(self)
    }
}

} // verus!
