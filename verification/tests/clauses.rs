use theorem_prover::fol::ast::{Cnf, Formula};
use theorem_prover::fol::parser::parse;
use theorem_prover::sat::clauses::{
    collect_clauses, collect_disjunctives, on_clause, on_lit, Clause, Clauses, Literal, SATSolver,
};
use theorem_prover::sat::dimacs;
use theorem_prover::sat::dimacs::DimacsError;
use theorem_prover::sat::dp::{
    affirmative_negative_rule, choose_symbol, comes_before, count_symbol, find_unit, rank_symbols,
    resolution_rule, resolve_all, resolve_on, satisfiable_dp, unit_propagation_rule,
};

fn lit(s: &str) -> Literal {
    match s.strip_prefix('-') {
        Some(rest) => Literal::neg(rest.to_string()),
        None => Literal::pos(s.to_string()),
    }
}

fn clause(lits: &[&str]) -> Clause {
    let mut c = Clause::new();
    for l in lits {
        c.insert(lit(l));
    }
    c
}

fn cs(clauses: &[&[&str]]) -> Clauses {
    let mut out = Clauses::new();
    for c in clauses {
        out.push(clause(c));
    }
    out
}

fn cnf(input: &str) -> Formula<Cnf> {
    parse(input).unwrap().to_nnf().to_pnf().skolemize().ground().to_cnf()
}

fn lines(text: &[&str]) -> Vec<String> {
    text.iter().map(|s| s.to_string()).collect()
}

fn shown(r: Result<Clauses, Clauses>) -> String {
    match r {
        Ok(c) => format!("Ok {}", c.display()),
        Err(c) => format!("Err {}", c.display()),
    }
}

#[test]
fn literals() {
    let p = Literal::pos("p".to_string());
    let n = Literal::neg("p".to_string());
    assert_eq!(p.var_name(), "p");
    assert_eq!(n.var_name(), "p");
    assert!(!p.is_negated());
    assert!(n.is_negated());
    assert_eq!(p.negate(), n);
    assert_eq!(n.negate(), p);
    assert!(p.same(&p.clone()));
    assert!(!p.same(&n));
    assert!(!p.same(&Literal::pos("q".to_string())));
}

#[test]
fn a_clause_is_a_set() {
    let mut c = Clause::new();
    assert!(c.is_empty());
    c.insert(lit("p"));
    c.insert(lit("-q"));
    c.insert(lit("p"));
    assert_eq!(c.len(), 2);
    assert!(c.contains(&lit("-q")));
    assert!(!c.contains(&lit("q")));
    c.remove(&lit("p"));
    c.remove(&lit("r"));
    assert_eq!(c.display(), "{ -q }");
    assert_eq!(c.clone().display(), "{ -q }");
}

#[test]
fn union_keeps_each_literal_once() {
    let u = clause(&["p", "q"]).union(&clause(&["q", "-p", "r"]));
    assert_eq!(u.display(), "{ p q -p r }");
}

#[test]
fn complementary_pairs_are_dropped() {
    let mut c = clause(&["p", "q", "-p", "r", "-r", "-s"]);
    c.remove_trivals();
    assert_eq!(c.display(), "{ q -s }");
    let mut c = clause(&["p", "-p"]);
    c.remove_trivals();
    assert!(c.is_empty());
}

#[test]
fn clauses_of_a_formula() {
    let f = cnf("(P(a) and Q(b)) or (R(c) and S(f(d, e)))");
    let clauses = Clauses::from_formula(f);
    assert_eq!(clauses.display(), "[{ P_a R_c }{ Q_b R_c }{ P_a S_fde }{ Q_b S_fde }]");
    assert_eq!(Clauses::from_formula(cnf("not P()")).display(), "[{ -P }]");
    assert_eq!(Clauses::from_formula(cnf("P(x) or P(x) or not P(x)")).display(), "[{ P_x -P_x }]");
    assert_eq!(
        Clauses::from_formula(cnf("forall x. exists y. forall z. exists w. P(x,y,z,w)")).display(),
        "[{ P_x_sk0x_z_sk1xz }]"
    );
}

#[test]
fn clause_collectors() {
    let mut set = clause(&["Q_b"]);
    collect_disjunctives(cnf("P(a) or (Q(b) or not R(c))"), &mut set);
    assert_eq!(set.display(), "{ Q_b P_a -R_c }");
    let mut clauses = cs(&[&["x"]]);
    collect_clauses(cnf("P(a) and (Q(b) or R(c))"), &mut clauses);
    assert_eq!(clauses.display(), "[{ x }{ P_a }{ Q_b R_c }]");
}

#[test]
fn formula_of_a_clause_set() {
    let clauses = cs(&[&["p", "-q", "r"], &["-p"], &["q", "s"]]);
    assert!(clauses.has_formula());
    assert_eq!(clauses.to_formula().display(), "((((p() ∨ ¬q()) ∨ r()) ∧ ¬p()) ∧ (q() ∨ s()))");
    assert_eq!(on_lit(&lit("-q")).display(), "¬q()");
    assert_eq!(on_clause(&clause(&["a", "b"])).display(), "(a() ∨ b())");
    assert!(!cs(&[]).has_formula());
    assert!(!cs(&[&["p"], &[]]).has_formula());
}

#[test]
fn clause_set_roundtrip() {
    for clauses in [
        cs(&[&["p", "-q", "r"], &["-p"], &["q", "s"]]),
        cs(&[&["p"]]),
        cs(&[&["P_x", "-P_x"], &["-P_a"], &["-P_b"], &["P_a"]]),
    ] {
        let text = clauses.display();
        let back = Clauses::from_formula(clauses.to_formula());
        assert_eq!(back.display(), text);
    }
}

#[test]
fn unit_propagation() {
    let a: &[&[&str]] = &[&["p", "q"], &["-q"], &["q", "-p", "r"], &["-q", "s"], &["t"]];
    assert_eq!(find_unit(&cs(a)), Some(lit("-q")));
    assert_eq!(shown(unit_propagation_rule(cs(a))), "Ok [{ p }{ -p r }{ t }]");
    let b: &[&[&str]] = &[&["p", "q"], &["-p", "r"]];
    assert_eq!(find_unit(&cs(b)), None);
    assert_eq!(shown(unit_propagation_rule(cs(b))), "Err [{ p q }{ -p r }]");
    assert_eq!(shown(unit_propagation_rule(cs(&[&["p"], &["-p"]]))), "Ok [{ }]");
}

#[test]
fn pure_literal_elimination() {
    let a: &[&[&str]] = &[&["p", "q"], &["-p", "r"], &["-p", "-r"], &["p", "r"]];
    assert_eq!(shown(affirmative_negative_rule(cs(a))), "Ok [{ -p r }{ -p -r }{ p r }]");
    let b: &[&[&str]] = &[&["p", "q"], &["-p", "-q"]];
    assert_eq!(shown(affirmative_negative_rule(cs(b))), "Err [{ p q }{ -p -q }]");
    let c: &[&[&str]] = &[&["p", "q"], &["-p", "r"], &["-p", "s"], &["p", "t"]];
    assert_eq!(shown(affirmative_negative_rule(cs(c))), "Ok []");
}

#[test]
fn symbols_are_ranked_by_frequency_then_name() {
    let a: &[&[&str]] = &[&["q", "r"], &["p", "q"], &["-p", "r"], &["-p", "s"], &["p", "t"]];
    assert_eq!(count_symbol(&cs(a), "p"), 4);
    assert_eq!(count_symbol(&cs(a), "q"), 2);
    assert_eq!(count_symbol(&cs(a), "z"), 0);
    assert_eq!(rank_symbols(&cs(a)), vec!["p", "q", "r", "s", "t"]);
    assert_eq!(choose_symbol(&cs(a), &vec![]), Some("p".to_string()));
    assert_eq!(choose_symbol(&cs(a), &vec!["p".to_string()]), Some("q".to_string()));
    let b: &[&[&str]] = &[&["q", "p"], &["-p", "-q"]];
    assert_eq!(rank_symbols(&cs(b)), vec!["p", "q"]);
    let c: &[&[&str]] = &[&["b", "ab"], &["-a", "abc"], &["B"]];
    assert_eq!(rank_symbols(&cs(c)), vec!["B", "a", "ab", "abc", "b"]);
    assert_eq!(choose_symbol(&cs(&[&[], &[]]), &vec![]), None);
    assert!(rank_symbols(&cs(&[&[], &[]])).is_empty());
}

#[test]
fn names_in_order() {
    assert!(comes_before("a", "b"));
    assert!(!comes_before("b", "a"));
    assert!(comes_before("ab", "abc"));
    assert!(!comes_before("abc", "ab"));
    assert!(comes_before("", "a"));
    assert!(!comes_before("a", "a"));
    assert!(!comes_before("", ""));
    assert!(comes_before("P_x", "P_y"));
    assert!(comes_before("10", "9"));
}

#[test]
fn resolution_resolves_on_every_symbol() {
    let a: &[&[&str]] = &[&["q", "r"], &["p", "q"], &["-p", "r"], &["-p", "s"], &["p", "t"]];
    assert_eq!(shown(resolution_rule(cs(a))), "Ok [{ q r }{ q s }{ t r }{ t s }]");
    let b: &[&[&str]] = &[&["P"], &["-P"], &["Q"], &["-Q"]];
    assert_eq!(shown(resolution_rule(cs(b))), "Ok [{ }{ }]");
    let c: &[&[&str]] = &[&["-a", "b"], &["-b", "c"], &["-c", "a"]];
    assert_eq!(shown(resolution_rule(cs(c))), "Ok [{ -c b }{ -a c }{ -b a }]");
    assert_eq!(resolve_on(&cs(a), "p").display(), "[{ q r }{ q s }{ t r }{ t s }]");
    assert_eq!(resolve_on(&cs(a), "q").display(), "[]");
    assert_eq!(shown(resolution_rule(cs(&[&[]]))), "Err [{ }]");
    assert_eq!(shown(resolution_rule(cs(&[]))), "Err []");
}

#[test]
fn resolvents_lose_their_complementary_pairs() {
    let d: &[&[&str]] = &[&["p", "q"], &["-p", "q"], &["p", "-q"], &["-p", "-q"]];
    assert_eq!(shown(resolution_rule(cs(d))), "Ok [{ q }{ }{ }{ -q }{ p }{ }{ }{ -p }]");
    let out = resolve_all(&cs(&[&["p", "a"], &["p", "-b"]]), &cs(&[&["-p", "b"]]));
    assert_eq!(out.display(), "[{ a b }{ }]");
}

#[test]
fn resolution_keeps_only_the_clauses_that_hold_nothing() {
    let a: &[&[&str]] = &[&["x", "-x"], &["p", "q"], &["-p", "r"], &["p", "-r"]];
    assert_eq!(shown(resolution_rule(cs(a))), "Ok [{ q r }{ }{ }]");
    let b: &[&[&str]] = &[&[], &["p"], &["-p"]];
    assert_eq!(shown(resolution_rule(cs(b))), "Ok [{ }{ }]");
}

#[test]
fn every_resolvent_comes_from_a_positive_and_a_negative_clause() {
    let input: &[&[&str]] = &[&["a", "b"], &["-a", "c"], &["-b", "-c"], &["a", "-c"], &["b", "c", "-a"]];
    let clauses = cs(input);
    let out = match resolution_rule(clauses.clone()) {
        Ok(out) => out,
        Err(_) => panic!("no symbol"),
    };
    for r in out.0.iter() {
        for l in r.0.iter() {
            assert!(!r.contains(&l.negate()));
        }
        let mut found = false;
        for c1 in clauses.0.iter() {
            for c2 in clauses.0.iter() {
                for l in c1.0.iter() {
                    if !l.is_negated() && c2.contains(&l.negate()) {
                        let mut resolvent = c1.union(c2);
                        resolvent.remove_trivals();
                        found = found || resolvent.display() == r.display();
                    }
                }
            }
        }
        assert!(found, "{}", r.display());
    }
}

#[test]
fn dp_decides_small_clause_sets() {
    assert!(satisfiable_dp(cs(&[])));
    assert!(!satisfiable_dp(cs(&[&[]])));
    assert!(satisfiable_dp(cs(&[&["p"]])));
    assert!(!satisfiable_dp(cs(&[&["p"], &["-p"]])));
    assert!(satisfiable_dp(cs(&[&["p", "q"], &["-p", "r"], &["-p", "s"], &["p", "t"]])));
    assert!(!satisfiable_dp(cs(&[&["p", "q"], &["-p", "q"], &["p", "-q"], &["-p", "-q"]])));
    assert!(satisfiable_dp(cs(&[&["a", "b"], &["-a", "b"], &["-b", "c"], &["c", "d"]])));
    assert!(!satisfiable_dp(cs(&[&["-x", "a", "-a"], &["x", "a", "-a"]])));
    assert!(satisfiable_dp(cs(&[&["x", "-x"], &["-a", "b"], &["a"]])));
    assert!(!satisfiable_dp(cs(&[&["x", "-x"], &["-a"], &["-b"], &["a"]])));
}

#[test]
fn dp_ends_where_resolution_goes_round() {
    assert!(satisfiable_dp(cs(&[&["-a", "b"], &["-b", "c"], &["-c", "a"]])));
}

#[test]
fn dp_may_deny_what_is_satisfiable() {
    assert!(!satisfiable_dp(cs(&[&["P", "Q"], &["-P", "-Q"]])));
}

#[test]
fn validity_and_satisfiability_of_formulas() {
    fn check(input: &str, valid: bool, satisfiable: bool) {
        let clauses = Clauses::from_formula(cnf(input));
        assert_eq!(clauses.clone().is_valid(SATSolver(satisfiable_dp)), valid, "{}", input);
        assert_eq!(clauses.is_satisfiable(SATSolver(satisfiable_dp)), satisfiable, "{}", input);
    }
    check("P(x) or not P(x)", true, true);
    check("P(x) => P(x)", true, true);
    check("P(x) and not P(x)", false, false);
    check("forall a. P(a) and not P(a)", false, false);
    check("(P(x) or Q(x)) and (not P(x)) and (not Q(x))", false, false);
    check("forall x. exists y. forall z. exists w. P(x,y,z,w)", false, true);
    check("(P(x) or not P(x)) and (not P(a) or P(b)) and P(a)", false, false);
}

#[test]
fn validity_is_refutation_of_the_negation() {
    for input in ["P(x) or not P(x)", "P(x)", "(P(a) => Q(b)) and P(a)", "P(a) and not P(a)"] {
        let clauses = Clauses::from_formula(cnf(input));
        let negated = Formula::not(clauses.to_formula())
            .cast()
            .to_nnf()
            .to_pnf()
            .skolemize()
            .ground()
            .to_cnf();
        let refuted = !Clauses::from_formula(negated).is_satisfiable(SATSolver(satisfiable_dp));
        assert_eq!(clauses.is_valid(SATSolver(satisfiable_dp)), refuted);
    }
}

#[test]
fn a_double_negation_changes_no_answer() {
    for input in [
        "forall x. P(x) => exists y. Q(x, y)",
        "(forall x. P(x)) and (exists x. not P(x))",
        "exists x. forall y. (P(x) <=> not P(y))",
    ] {
        let plain = Clauses::from_formula(cnf(input));
        let doubled = Formula::not(Formula::not(parse(input).unwrap()));
        let doubled =
            Clauses::from_formula(doubled.to_nnf().to_pnf().skolemize().ground().to_cnf());
        assert_eq!(plain.display(), doubled.display());
        assert_eq!(satisfiable_dp(plain), satisfiable_dp(doubled));
    }
}

#[test]
fn any_solver_can_be_asked() {
    fn never(_: Clauses) -> bool {
        false
    }
    assert!(!cs(&[]).is_satisfiable(SATSolver(never)));
    assert!(cs(&[&["p"]]).is_valid(SATSolver(never)));
    assert!(!cs(&[&["p"]]).is_valid(SATSolver(|_: Clauses| true)));
}

#[test]
fn dimacs_header_and_clauses() {
    let text = lines(&["c a comment", "p cnf 3 2", "1 -2 0", "2 3 0"]);
    let clauses = dimacs::parse(&text).unwrap();
    assert_eq!(clauses.display(), "[{ 1 -2 }{ 2 3 }]");
    assert_eq!(clauses.0[0].0, vec![lit("1"), lit("-2")]);
    assert_eq!(clauses.0[1].0, vec![lit("2"), lit("3")]);
    assert!(satisfiable_dp(clauses));
    assert_eq!(Clauses::from_dimacs(&text).unwrap().display(), "[{ 1 -2 }{ 2 3 }]");
}

#[test]
fn dimacs_fields_lines_and_terminators() {
    assert_eq!(dimacs::split_fields("  1\t-2   0 "), vec!["1", "-2", "0"]);
    let text = lines(&["  c x", "p cnf 2 3", " 1   2 0", "-1 0 7", "2 2 -1", "%", "1 0"]);
    assert_eq!(dimacs::parse(&text).unwrap().display(), "[{ 1 2 }{ -1 }{ 2 -1 }]");
    let text = lines(&["1 0", "", "2 0"]);
    assert_eq!(dimacs::parse(&text).unwrap().display(), "[{ 1 }]");
    assert_eq!(dimacs::parse(&lines(&["0"])).unwrap().display(), "[{ }]");
    assert_eq!(dimacs::parse(&lines(&[])).unwrap().display(), "[]");
}

#[test]
fn dimacs_errors() {
    assert!(matches!(
        dimacs::parse(&lines(&["c ok", "p cnf 3", "1 0"])),
        Err(DimacsError::InvalidHeader(1))
    ));
    assert!(matches!(dimacs::parse(&lines(&["p dnf 3 2"])), Err(DimacsError::InvalidHeader(0))));
    assert!(matches!(dimacs::parse(&lines(&["problem cnf 3 2"])), Err(DimacsError::InvalidHeader(0))));
    assert!(matches!(
        dimacs::parse(&lines(&["1 2 0", "1 x 0"])),
        Err(DimacsError::InvalidLiteral(1))
    ));
    assert!(matches!(dimacs::parse(&lines(&["1 - 0"])), Err(DimacsError::InvalidLiteral(0))));
    assert!(matches!(dimacs::parse(&lines(&["--1 0"])), Err(DimacsError::InvalidLiteral(0))));
}

#[test]
fn checked_conversions() {
    assert!(Clauses::checked_from_formula(parse("P(a) or (Q(b) and R(c))").unwrap().cast()).is_none());
    assert!(Clauses::checked_from_formula(parse("P(a) => Q(b)").unwrap().cast()).is_none());
    assert!(Clauses::checked_from_formula(parse("forall x. P(x)").unwrap().cast()).is_none());
    assert!(Clauses::checked_from_formula(Formula::Dummy).is_none());
    let clauses = Clauses::checked_from_formula(cnf("P(a) and (Q(b) or not R(c))")).unwrap();
    assert_eq!(clauses.display(), "[{ P_a }{ Q_b -R_c }]");
    assert_eq!(clauses.checked_to_formula().unwrap().display(), "(P_a() ∧ (Q_b() ∨ ¬R_c()))");
    assert!(cs(&[]).checked_to_formula().is_none());
    assert!(cs(&[&["p"], &[]]).checked_to_formula().is_none());
}
