use theorem_prover::fol::ast::{Raw, Term};
use theorem_prover::fol::parser::parse;
use theorem_prover::prover::sequent::Sequent;
use theorem_prover::prover::unification::Unifier;

#[test]
fn sequent_as_text() {
    let s: Sequent<Raw> = Sequent {
        left: vec![parse("P(x)").unwrap(), parse("P(x) => Q(x)").unwrap()],
        right: vec![parse("Q(x)").unwrap()],
        depth: 0,
    };
    assert_eq!(s.display(), "P(x), (P(x) → Q(x)) ⊢ Q(x)\n");
    let s: Sequent<Raw> = Sequent { left: vec![], right: vec![], depth: 3 };
    assert_eq!(s.display(), " ⊢ \n");
}

#[test]
fn unifier_cascade_moves_the_substitutions() {
    let mut a = Unifier::new();
    assert!(a.is_empty());
    let mut b = Unifier(vec![vec![(Term::var("x"), Term::func("f", vec![Term::var("y")]))], vec![]]);
    assert!(!b.is_empty());
    a.cascade(&mut b);
    assert!(b.is_empty());
    assert_eq!(a.0.len(), 2);
    assert_eq!(a.0[0], vec![(Term::var("x"), Term::func("f", vec![Term::var("y")]))]);
    let mut c = Unifier(vec![vec![(Term::var("z"), Term::var("w"))]]);
    a.cascade(&mut c);
    assert_eq!(a.0.len(), 3);
    assert_eq!(a.0[2], vec![(Term::var("z"), Term::var("w"))]);
}
