use theorem_prover::fol::ast::{Formula, Pnf, Raw};
use theorem_prover::fol::parser::parse;
use theorem_prover::fol::pnf::{first_non_quantified, merge_pnfs, pnf_binop, pnf_unop, Connective};
use theorem_prover::fol::skolem::{checked_skolemize, count_prefix_exists, SkolemState};

fn nnf(input: &str) -> String {
    parse(input).unwrap().to_nnf().display()
}

fn pnf(input: &str) -> String {
    parse(input).unwrap().to_nnf().to_pnf().display()
}

fn skolem(input: &str) -> String {
    parse(input).unwrap().to_nnf().to_pnf().skolemize().display()
}

fn ground(input: &str) -> String {
    parse(input).unwrap().to_nnf().to_pnf().skolemize().ground().display()
}

fn cnf(input: &str) -> String {
    parse(input).unwrap().to_nnf().to_pnf().skolemize().ground().to_cnf().display()
}

#[test]
fn nnf_writes_the_arrows_out() {
    assert_eq!(nnf("P(x) => Q(x)"), "(¬P(x) ∨ Q(x))");
    assert_eq!(nnf("P(a) <=> P(b)"), "((P(a) ∧ P(b)) ∨ (¬P(a) ∧ ¬P(b)))");
    assert_eq!(nnf("not (P(x) => Q(x))"), "(P(x) ∧ ¬Q(x))");
    assert_eq!(nnf("not (P(a) <=> P(b))"), "((¬P(a) ∨ ¬P(b)) ∧ (P(a) ∨ P(b)))");
}

#[test]
fn nnf_pushes_negations_to_the_atoms() {
    assert_eq!(nnf("forall a. not (P(a) and P(b))"), "(∀a.(¬P(a) ∨ ¬P(b)))");
    assert_eq!(nnf("forall a. not (P(a) or P(b))"), "(∀a.(¬P(a) ∧ ¬P(b)))");
    assert_eq!(nnf("not (forall x. P(x))"), "(∃x.¬P(x))");
    assert_eq!(nnf("not (exists x. P(x))"), "(∀x.¬P(x))");
    assert_eq!(nnf("not (forall x. exists y. (P(x) and Q(y)))"), "(∃x.(∀y.(¬P(x) ∨ ¬Q(y))))");
    assert_eq!(nnf("not ((P(a) and (Q(b) or R(c))) and S(d))"), "((¬P(a) ∨ (¬Q(b) ∧ ¬R(c))) ∨ ¬S(d))");
}

#[test]
fn nnf_drops_double_negations() {
    assert_eq!(nnf("not not P(x)"), "P(x)");
    assert_eq!(nnf("not not not P(f(a, g(b)), c)"), "¬P(f(a,g(b)),c)");
    assert_eq!(nnf("not not (P(x) => not not Q(x))"), "(¬P(x) ∨ Q(x))");
}

#[test]
fn nnf_results_are_in_negation_normal_form() {
    for input in [
        "P(x)",
        "not (forall x. exists y. (P(x) <=> not Q(y)))",
        "(P(a) => Q(b)) <=> not (R(c) or not S(d))",
        "not not not (forall x. not (P(x) => exists y. not not Q(y)))",
    ] {
        let raw = parse(input).unwrap();
        assert!(raw.is_well_formed());
        let out = raw.to_nnf();
        assert!(out.is_nnf(), "{}", out.display());
        assert!(out.is_well_formed());
    }
    assert!(!parse("not (P(x) and Q(x))").unwrap().is_nnf());
    assert!(!parse("P(x) => Q(x)").unwrap().is_nnf());
    assert!(!parse("not not P(x)").unwrap().is_nnf());
}

#[test]
fn nnf_of_a_double_negation_is_that_of_the_formula() {
    for input in ["P(x)", "forall x. P(x) => exists y. Q(x, y)", "not (P(a) <=> Q(b))"] {
        let plain = parse(input).unwrap().to_nnf().display();
        let doubled = Formula::not(Formula::not(parse(input).unwrap())).to_nnf().display();
        assert_eq!(plain, doubled);
    }
}

#[test]
fn pnf_moves_quantifiers_to_the_front() {
    assert_eq!(pnf("forall x. P(x) => exists y. Q(y)"), "(∀x.(∃y.(¬P(x) ∨ Q(y))))");
    assert_eq!(pnf("(forall x. P(x)) or (exists y. Q(y))"), "(∀x.(∃y.(P(x) ∨ Q(y))))");
    assert_eq!(
        pnf("(forall x. exists y. P(x, y)) and (forall z. R(z))"),
        "(∀x.(∃y.(∀z.(P(x,y) ∧ R(z)))))"
    );
    assert_eq!(pnf("P(x)"), "P(x)");
    assert_eq!(pnf("not P(x)"), "¬P(x)");
}

#[test]
fn pnf_renames_the_right_side_on_capture() {
    assert_eq!(pnf("(forall x. P(x)) and (forall x. Q(x, y))"), "(∀x.(∀x0.(P(x) ∧ Q(x0,y))))");
    assert_eq!(pnf("P(x) and (forall x. Q(x))"), "(∀x0.(P(x) ∧ Q(x0)))");
    assert_eq!(pnf("P(x, x0) and (exists x. Q(x))"), "(∃x1.(P(x,x0) ∧ Q(x1)))");
    assert_eq!(
        pnf("forall x. (P(x) <=> forall y. Q(y) and exists z. R(z))"),
        "(∀x.(∀y.(∃z.(∃y0.(∀z0.((P(x) ∧ (Q(y) ∧ R(z))) ∨ (¬P(x) ∧ (¬Q(y0) ∨ ¬R(z0)))))))))"
    );
}

#[test]
fn pnf_results_are_prenex() {
    for input in [
        "(forall x. P(x)) and (exists x. Q(x)) or not (forall y. R(y))",
        "forall x. (P(x) <=> forall y. Q(y) and exists z. R(z))",
        "not (exists x. forall y. P(x, y) => exists z. Q(z))",
    ] {
        let out = parse(input).unwrap().to_nnf().to_pnf();
        assert!(out.is_pnf(), "{}", out.display());
        assert!(out.is_nnf(), "{}", out.display());
        assert!(first_non_quantified(&out).is_quantifier_free());
    }
    assert!(!parse("P(x) and forall y. Q(y)").unwrap().is_pnf());
}

#[test]
fn pnf_helpers() {
    let left: Formula<Pnf> = parse("forall x. exists y. P(x, y)").unwrap().cast();
    let right: Formula<Pnf> = parse("forall z. Q(z)").unwrap().cast();
    assert_eq!(first_non_quantified(&left).display(), "P(x,y)");
    assert_eq!(merge_pnfs(left, right).display(), "(∀x.(∃y.(∀z.Q(z))))");
    let out = pnf_binop(
        Connective::Implies,
        parse("exists x. P(x)").unwrap().cast(),
        parse("exists x. Q(x)").unwrap().cast(),
    );
    assert_eq!(out.display(), "(∃x.(∃x0.(P(x) → Q(x0))))");
    assert_eq!(pnf_unop(parse("forall x. P(x)").unwrap().cast()).display(), "(∀x.¬P(x))");
    let joined: Formula<Raw> = Connective::Iff.connect(parse("A()").unwrap(), parse("B()").unwrap());
    assert_eq!(joined.display(), "(A() ↔ B())");
}

#[test]
fn skolem_terms_depend_on_the_universals_in_front() {
    assert_eq!(
        skolem("forall x. exists y. forall z. exists w. P(x,y,z,w)"),
        "(∀x.(∀z.P(x,sk0(x),z,sk1(x,z))))"
    );
    assert_eq!(skolem("exists x. (forall y. (P(x, y) and Q(x)))"), "(∀y.(P(sk0(),y) ∧ Q(sk0())))");
    assert_eq!(
        skolem("forall x. exists y. exists z. (P(x) and Q(y) and R(z))"),
        "(∀x.(P(x) ∧ (Q(sk0(x)) ∧ R(sk1(x)))))"
    );
    assert_eq!(skolem("exists x. exists y. P(x, y)"), "P(sk0(),sk1())");
    assert_eq!(skolem("forall x. P(x)"), "(∀x.P(x))");
}

#[test]
fn skolem_substitution_avoids_capture() {
    assert_eq!(skolem("forall x. exists y. forall x. P(x, y)"), "(∀x.(∀x0.P(x0,sk0(x))))");
}

#[test]
fn skolem_symbols_pass_over_the_names_of_the_formula() {
    assert_eq!(
        skolem("exists y. sk0(y) and exists z. P(sk1(z), sk2)"),
        "(sk0(sk3()) ∧ P(sk1(sk4()),sk2))"
    );
    assert_eq!(skolem("exists y. P(sk1(y))"), "P(sk1(sk0()))");
}

#[test]
fn skolem_results_hold_no_existential_quantifier() {
    for input in [
        "forall x. exists y. forall z. exists w. P(x,y,z,w)",
        "not (forall x. exists y. (P(x) and Q(y)))",
        "forall x. (P(x) <=> forall y. Q(y) and exists z. R(z))",
    ] {
        let prenex = parse(input).unwrap().to_nnf().to_pnf();
        assert_eq!(count_prefix_exists(&prenex).is_some(), true);
        let out = checked_skolemize(prenex).unwrap();
        assert!(out.is_exists_free(), "{}", out.display());
        assert!(out.is_pnf());
    }
    assert_eq!(count_prefix_exists(&parse("forall x. exists y. exists z. P(x, y, z)").unwrap()), Some(2));
    assert_eq!(count_prefix_exists(&parse("P(x) and exists z. P(z)").unwrap()), Some(0));
}

#[test]
fn skolem_state_counts_up() {
    let mut state = SkolemState::new();
    assert_eq!(state.fresh_skolem(), "sk0");
    assert_eq!(state.fresh_skolem(), "sk1");
    for _ in 2..10 {
        state.fresh_skolem();
    }
    assert_eq!(state.fresh_skolem(), "sk10");
    let taken = parse("sk0(sk2) and sk3()").unwrap().names();
    let mut state = SkolemState::avoiding(taken);
    assert_eq!(state.fresh_skolem(), "sk1");
    assert_eq!(state.fresh_skolem(), "sk4");
}

#[test]
fn ground_drops_the_prefix() {
    assert_eq!(ground("forall x. exists y. forall z. exists w. P(x,y,z,w)"), "P(x,sk0(x),z,sk1(x,z))");
    assert_eq!(ground("forall a. P(a) and not P(a)"), "(P(a) ∧ ¬P(a))");
    assert_eq!(ground("P(x)"), "P(x)");
    let out = parse("forall a. forall b. P(a) <=> P(b)").unwrap().to_nnf().to_pnf().skolemize().ground();
    assert!(out.is_quantifier_free());
}

#[test]
fn cnf_distributes_disjunction_over_conjunction() {
    assert_eq!(cnf("P(a) or (Q(b) and R(c))"), "((P(a) ∨ Q(b)) ∧ (P(a) ∨ R(c)))");
    assert_eq!(cnf("(P(a) and Q(b)) or R(c)"), "((P(a) ∨ R(c)) ∧ (Q(b) ∨ R(c)))");
    assert_eq!(
        cnf("(P(a) and Q(b)) or (R(c) and S(f(d, e)))"),
        "(((P(a) ∨ R(c)) ∧ (Q(b) ∨ R(c))) ∧ ((P(a) ∨ S(f(d,e))) ∧ (Q(b) ∨ S(f(d,e)))))"
    );
    assert_eq!(cnf("P(a) or not Q(b)"), "(P(a) ∨ ¬Q(b))");
    assert_eq!(cnf("not P(a)"), "¬P(a)");
    assert_eq!(
        cnf("forall a. forall b. P(a) <=> P(b)"),
        "(((P(a) ∨ ¬P(a)) ∧ (P(b) ∨ ¬P(a))) ∧ ((P(a) ∨ ¬P(b)) ∧ (P(b) ∨ ¬P(b))))"
    );
}

#[test]
fn cnf_results_are_conjunctions_of_disjunctions_of_literals() {
    for input in [
        "(P(a) and Q(b)) or (R(c) and (S(d) or (T(e) and not U(f))))",
        "forall x. (P(x) <=> forall y. Q(y) and exists z. R(z))",
        "not ((P(a) => Q(b)) <=> (R(c) => S(d)))",
    ] {
        let out = parse(input).unwrap().to_nnf().to_pnf().skolemize().ground().to_cnf();
        assert!(out.is_cnf(), "{}", out.display());
    }
    let f = parse("P(a) or (Q(b) and R(c))").unwrap();
    assert!(!f.is_cnf());
    assert!(parse("P(a) or not Q(b)").unwrap().is_clause());
    assert!(parse("not Q(b)").unwrap().is_literal());
    assert!(!parse("not not Q(b)").unwrap().is_literal());
}
