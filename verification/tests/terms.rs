use theorem_prover::fol::ast::{Formula, Pred, Raw, Term, Var};
use theorem_prover::fol::free::{formula_free_vars, term_free_vars, VarSet};
use theorem_prover::fol::fresh::fresh_name;
use theorem_prover::fol::parser::parse;
use theorem_prover::fol::subst::{alpha_rename, formula_substitute, term_substitute};

fn var(name: &str) -> Var {
    Var::from_string(name.to_string())
}

fn set(names: &[&str]) -> VarSet {
    let mut s = VarSet::new();
    for n in names {
        s.insert(var(n));
    }
    s
}

fn names(s: &VarSet) -> Vec<String> {
    let mut out: Vec<String> = s.vars.iter().map(|v| v.name.clone()).collect();
    out.sort();
    out
}

fn substituted(input: &str, from: &str, to: Term) -> String {
    let mut f = parse(input).unwrap();
    f.substitute(var(from), to);
    f.display()
}

#[test]
fn constructors_and_text() {
    let t = Term::func("f", vec![Term::var("x"), Term::func("c", vec![])]);
    assert_eq!(t.dislay(), "f(x,c())");
    assert_eq!(var("x").to_term(), Term::var("x"));
    let f: Formula<Raw> = Formula::iff(
        Formula::and(Formula::pred("P", vec![t.clone()]), Formula::pred("Q", vec![])),
        Formula::there_exists(var("y"), Formula::or(Formula::pred("R", vec![Term::var("y")]), Formula::Dummy)),
    );
    assert_eq!(f.display(), "((P(f(x,c())) ∧ Q()) ↔ (∃y.(R(y) ∨ Dummy)))");
    assert_eq!(f.clone(), f);
}

#[test]
fn take_leaves_the_placeholder() {
    let mut t = Term::var("x");
    assert_eq!(t.take(), Term::var("x"));
    assert_eq!(t, Term::Dummy);
    assert_eq!(Term::default(), Term::Dummy);
    let mut f: Formula<Raw> = Formula::pred("P", vec![]);
    let taken = f.take();
    assert_eq!(taken.display(), "P()");
    assert_eq!(f, Formula::Dummy);
    assert_eq!(Formula::<Raw>::default(), Formula::Dummy);
}

#[test]
fn cast_keeps_the_formula() {
    let f = parse("forall x. P(x) => exists y. not Q(x, y)").unwrap();
    let text = f.display();
    assert_eq!(f.cast::<theorem_prover::fol::ast::Cnf>().display(), text);
}

#[test]
fn atom_symbols() {
    fn symbol(terms: Vec<Term>) -> String {
        let p: Pred<Raw> = match Formula::pred("P", terms) {
            Formula::Pred(p) => p,
            _ => unreachable!(),
        };
        p.unique()
    }
    assert_eq!(symbol(vec![]), "P");
    assert_eq!(symbol(vec![Term::var("x")]), "P_x");
    assert_eq!(symbol(vec![Term::var("x"), Term::var("y")]), "P_x_y");
    let f = Term::func("f", vec![Term::var("a"), Term::var("b")]);
    assert_eq!(symbol(vec![f, Term::var("c")]), "P_fab_c");
    let nested = Term::func("f", vec![Term::var("a"), Term::func("g", vec![Term::var("b")])]);
    assert_eq!(symbol(vec![nested, Term::func("c", vec![])]), "P_fagb_c");
    assert_eq!(symbol(vec![Term::Dummy]), "P_dummy");
}

#[test]
fn var_set_is_a_set() {
    let mut s = VarSet::new();
    assert_eq!(s.len(), 0);
    s.insert(var("x"));
    s.insert(var("y"));
    s.insert(var("x"));
    assert_eq!(s.len(), 2);
    assert!(s.contains(&var("x")));
    assert!(!s.contains(&var("z")));
    s.remove(&var("x"));
    s.remove(&var("z"));
    assert_eq!(names(&s), vec!["y"]);
    s.extend(&set(&["y", "z", "w"]));
    assert_eq!(names(&s), vec!["w", "y", "z"]);
}

#[test]
fn free_variables_of_terms() {
    let t = Term::func("f", vec![Term::var("x"), Term::func("g", vec![Term::var("x"), Term::var("y")])]);
    assert_eq!(names(&t.free_vars()), vec!["x", "y"]);
    assert_eq!(names(&term_free_vars(&Term::func("c", vec![]))), Vec::<String>::new());
    assert_eq!(names(&Term::Dummy.free_vars()), Vec::<String>::new());
}

#[test]
fn free_variables_of_formulas() {
    let f = parse("forall x. P(x, f(y, g(z)), c()) => exists z. Q(z, w)").unwrap();
    assert_eq!(names(&f.free_vars()), vec!["w", "y", "z"]);
    assert_eq!(names(&formula_free_vars(&parse("forall x. exists y. P(x, y)").unwrap())), Vec::<String>::new());
    assert_eq!(names(&parse("(forall x. P(x)) and Q(x)").unwrap().free_vars()), vec!["x"]);
}

#[test]
fn names_of_formulas() {
    let f = parse("forall x. P(x, f(y)) => exists z. Q(z, w)").unwrap();
    assert_eq!(names(&f.names()), vec!["P", "Q", "f", "w", "x", "y", "z"]);
}

#[test]
fn fresh_names_count_up_from_zero() {
    assert_eq!(fresh_name(&var("x"), &set(&[])).name, "x0");
    assert_eq!(fresh_name(&var("x"), &set(&["x", "y0"])).name, "x0");
    assert_eq!(fresh_name(&var("x"), &set(&["x0", "x1", "x3"])).name, "x2");
    let taken: Vec<String> = (0..12).map(|i| format!("v{}", i)).collect();
    let taken: Vec<&str> = taken.iter().map(|s| s.as_str()).collect();
    assert_eq!(fresh_name(&var("v"), &set(&taken)).name, "v12");
}

#[test]
fn substitution_in_terms() {
    let mut t = Term::func("f", vec![Term::var("x"), Term::func("g", vec![Term::var("x"), Term::var("y")])]);
    t.substitute(var("x"), Term::func("h", vec![Term::var("x")]));
    assert_eq!(t.dislay(), "f(h(x),g(h(x),y))");
    let mut v = Term::var("x");
    term_substitute(&mut v, var("y"), Term::var("z"));
    assert_eq!(v, Term::var("x"));
    term_substitute(&mut v, var("x"), Term::var("z"));
    assert_eq!(v, Term::var("z"));
}

#[test]
fn substitution_replaces_free_occurrences_only() {
    assert_eq!(substituted("P(x)", "x", Term::var("y")), "P(y)");
    assert_eq!(substituted("forall x. P(x, y)", "x", Term::var("z")), "(∀x.P(x,y))");
    assert_eq!(substituted("P(x) and forall x. Q(x)", "x", Term::var("z")), "(P(z) ∧ (∀x.Q(x)))");
    assert_eq!(substituted("P(f(x, g(x)), x)", "x", Term::func("h", vec![Term::var("x")])), "P(f(h(x),g(h(x))),h(x))");
    assert_eq!(substituted("forall a. P(f(a))", "x", Term::var("y")), "(∀a.P(f(a)))");
}

#[test]
fn substitution_renames_where_it_would_capture() {
    assert_eq!(substituted("forall x. P(x) and P(y)", "y", Term::var("x")), "(∀x0.(P(x0) ∧ P(x)))");
    assert_eq!(
        substituted("forall y. P(x, y)", "x", Term::func("f", vec![Term::var("y"), Term::var("y0")])),
        "(∀y1.P(f(y,y0),y1))"
    );
    assert_eq!(
        substituted("forall y. (P(x, y) and exists y0. Q(y0, y))", "x", Term::var("y")),
        "(∀y0.(P(y,y0) ∧ (∃y00.Q(y00,y0))))"
    );
}

#[test]
fn substitution_keeps_free_variables_sound() {
    let mut f = parse("forall y. (P(x, y) and exists z. Q(z, x, w))").unwrap();
    let t = Term::func("f", vec![Term::var("y"), Term::var("z")]);
    let mut allowed = f.free_vars();
    allowed.remove(&var("x"));
    allowed.extend(&t.free_vars());
    formula_substitute(&mut f, var("x"), t.clone());
    let after = f.free_vars();
    for v in after.vars.iter() {
        assert!(allowed.contains(v));
    }
    for v in t.free_vars().vars.iter() {
        assert!(after.contains(v));
    }
    assert_eq!(names(&after), vec!["w", "y", "z"]);
}

#[test]
fn alpha_rename_renames_the_outermost_quantifier() {
    let mut f = parse("forall x. P(x, y)").unwrap();
    f.alpha_rename();
    assert_eq!(f.display(), "(∀x0.P(x0,y))");
    let mut f = parse("exists x. P(x, x0, x1)").unwrap();
    alpha_rename(&mut f);
    assert_eq!(f.display(), "(∃x2.P(x2,x0,x1))");
    let mut f = parse("P(x) and exists x. P(x)").unwrap();
    f.alpha_rename();
    assert_eq!(f.display(), "(P(x) ∧ (∃x.P(x)))");
    let mut f = parse("forall x. P(x)").unwrap();
    f.alpha_rename_avoiding(&set(&["x0", "x1"]));
    assert_eq!(f.display(), "(∀x2.P(x2))");
}
