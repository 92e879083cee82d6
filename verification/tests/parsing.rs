use theorem_prover::fol::ast::{Formula, Raw, Term, Var};
use theorem_prover::fol::parser::{lex, parse, ParserError};

fn shown(input: &str) -> String {
    parse(input).unwrap().display()
}

#[test]
fn lexer_splits_words_arrows_and_punctuation() {
    let stream = lex("forall x1.(P(x1,y)<=>Q) =>\tR\n").unwrap();
    let expected = vec![
        "forall", "x1", ".", "(", "P", "(", "x1", ",", "y", ")", "<=>", "Q", ")", "=>", "R",
    ];
    assert_eq!(stream.tokens, expected);
}

#[test]
fn lexer_of_blank_input_is_empty() {
    assert!(lex("").unwrap().tokens.is_empty());
    assert!(lex(" \t\r\n").unwrap().tokens.is_empty());
}

#[test]
fn lexer_reports_the_unexpected_character() {
    assert_eq!(lex("P(x) ! Q").unwrap_err(), "unexpected character !");
    assert_eq!(lex("P(x_1)").unwrap_err(), "unexpected character _");
}

#[test]
fn token_cursor_peeks_and_advances() {
    let stream = lex("P ( x").unwrap();
    let mut it = stream.iter();
    assert_eq!(it.peek(), Some("P"));
    assert_eq!(it.next(), Some("P"));
    assert_eq!(it.next(), Some("("));
    assert_eq!(it.peek(), Some("x"));
    assert_eq!(it.next(), Some("x"));
    assert_eq!(it.peek(), None);
    assert_eq!(it.next(), None);
    assert_eq!(it.i, 3);
}

#[test]
fn parse_builds_the_expected_tree() {
    let parsed = parse("forall x. P(x, f(y)) => not Q()").unwrap();
    let expected: Formula<Raw> = Formula::for_all(
        Var::from_string("x".to_string()),
        Formula::implies(
            Formula::pred("P", vec![Term::var("x"), Term::func("f", vec![Term::var("y")])]),
            Formula::not(Formula::pred("Q", vec![])),
        ),
    );
    assert_eq!(parsed, expected);
}

#[test]
fn negation_and_quantifiers_reach_to_the_right() {
    assert_eq!(shown("not P(a) or P(b)"), "¬(P(a) ∨ P(b))");
    assert_eq!(shown("forall x. P(x) and Q(x)"), "(∀x.(P(x) ∧ Q(x)))");
    assert_eq!(shown("exists x. P(x) <=> Q(x)"), "(∃x.(P(x) ↔ Q(x)))");
}

#[test]
fn connectives_nest_to_the_right() {
    assert_eq!(shown("P(x) and Q(x) or R(x)"), "(P(x) ∧ (Q(x) ∨ R(x)))");
    assert_eq!(shown("(P(x) and Q(x)) or R(x)"), "((P(x) ∧ Q(x)) ∨ R(x))");
    assert_eq!(shown("P(x) => Q(x) => R(x)"), "(P(x) → (Q(x) → R(x)))");
}

#[test]
fn the_dot_behind_a_bound_variable_is_optional() {
    assert_eq!(shown("forall x P(x)"), "(∀x.P(x))");
    assert_eq!(shown("forall x. forall y P(x, y)"), "(∀x.(∀y.P(x,y)))");
    assert_eq!(shown("exists y . Q(y)"), "(∃y.Q(y))");
}

#[test]
fn identifiers_are_alphanumeric() {
    assert_eq!(shown("P(x1, y2z)"), "P(x1,y2z)");
    assert_eq!(shown("Rel2(f2(a))"), "Rel2(f2(a))");
}

#[test]
fn argument_lists() {
    assert_eq!(shown("P()"), "P()");
    assert_eq!(shown("P(a,)"), "P(a)");
    assert_eq!(shown("P(f(), g(h(x)))"), "P(f(),g(h(x)))");
}

#[test]
fn operators_need_no_blanks() {
    assert_eq!(shown("P(x)=>Q(x)"), "(P(x) → Q(x))");
    assert_eq!(shown("P(x)<=>Q(x)"), "(P(x) ↔ Q(x))");
}

#[test]
fn tokens_behind_the_formula_are_not_read() {
    assert_eq!(shown("P(x) )"), "P(x)");
}

#[test]
fn error_end_of_tokens() {
    assert!(matches!(parse(""), Err(ParserError::EndOfTokens)));
    assert!(matches!(parse("P(x"), Err(ParserError::EndOfTokens)));
    assert!(matches!(parse("P(x) and"), Err(ParserError::EndOfTokens)));
    assert!(matches!(parse("(P(x)"), Err(ParserError::EndOfTokens)));
    assert!(matches!(parse("p"), Err(ParserError::EndOfTokens)));
}

#[test]
fn error_wrong_term() {
    assert!(matches!(parse("forall f(x). P(x)"), Err(ParserError::WrongTerm)));
    assert!(matches!(parse("exists g(). Q()"), Err(ParserError::WrongTerm)));
    assert!(matches!(parse("P(a) and forall h(a, b) . Q(a)"), Err(ParserError::WrongTerm)));
    assert_eq!(shown("forall x (P(x))"), "(∀x.P(x))");
    assert_eq!(shown("exists x (P(x) or Q(x))"), "(∃x.(P(x) ∨ Q(x)))");
}

#[test]
fn error_lexer() {
    assert!(matches!(parse("P(x) ! Q"), Err(ParserError::LexerError)));
}

#[test]
fn error_unexpected_names_the_token() {
    fn unexpected(input: &str) -> String {
        match parse(input) {
            Err(ParserError::Unexpected(token)) => token,
            other => panic!("{:?}", other.map(|f| f.display())),
        }
    }
    assert_eq!(unexpected("and"), "and");
    assert_eq!(unexpected("P(x y)"), "y");
    assert_eq!(unexpected("P(x) Q(y)"), "Q");
    assert_eq!(unexpected("forall (x) P(x)"), "(");
    assert_eq!(unexpected("forall not. P(x)"), "not");
    assert_eq!(unexpected("P(x) <= Q(x)"), "<=");
    assert_eq!(unexpected("P(x) => => Q(x)"), "=>");
    assert_eq!(unexpected("f(x)(y)"), "(");
}
