use theorem_prover::sat::clauses::SATSolver;
use theorem_prover::sat::dimacs;
use theorem_prover::sat::dp::satisfiable_dp;

fn satlib_run(text: &str, expect: bool) {
    let lines: Vec<String> = text.lines().map(|l| l.to_string()).collect();
    let clauses = dimacs::parse(&lines).expect("Failed to parse");
    let sat = clauses.is_satisfiable(SATSolver(satisfiable_dp));
    println!("  |-sat-----> {:?}, should be {:?}", sat, expect);
    assert_eq!(sat, expect);
}

#[test]
fn test_simple_unsat() {
    satlib_run("c two units\np cnf 1 2\n1 0\n-1 0\n", false);
    satlib_run("c all sign patterns of two variables\np cnf 2 4\n1 2 0\n-1 2 0\n1 -2 0\n-1 -2 0\n%\n0\n", false);
    satlib_run(
        "c a chain of implications with both ends fixed\np cnf 4 5\n1 0\n-1 2 0\n-2 3 0\n-3 4 0\n-4 0\n",
        false,
    );
    satlib_run(
        "c all sign patterns of three variables\np cnf 3 8\n1 2 3 0\n1 2 -3 0\n1 -2 3 0\n1 -2 -3 0\n-1 2 3 0\n-1 2 -3 0\n-1 -2 3 0\n-1 -2 -3 0\n",
        false,
    );
    satlib_run("c pigeons: two in one hole\np cnf 2 3\n1 0\n2 0\n-1 -2 0\n", false);
}

#[test]
fn test_simple_sat() {
    satlib_run("c no clause\np cnf 3 0\n", true);
    satlib_run("p cnf 3 2\n1 -2 0\n2 3 0\n", true);
    satlib_run("c a chain of implications with one end fixed\np cnf 4 4\n1 0\n-1 2 0\n-2 3 0\n-3 4 0\n", true);
    satlib_run("c units decide everything\np cnf 3 4\n-1 0\n1 2 0\n-2 3 0\n1 -2 3 0\n", true);
    satlib_run("c every symbol with one sign\np cnf 4 3\n1 -2 3 0\n-2 4 0\n1 3 4 0\n", true);
}
