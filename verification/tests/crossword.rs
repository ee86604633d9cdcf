use croissant::crossword::Crossword;
use croissant::solver::{ConfigurableSolver, Solver, SolverBuilder, SolverConfigurator};

struct StubSolverBuilder {}

impl SolverConfigurator for StubSolverBuilder {
    fn clauses(&self) -> vstd::seq::Seq<vstd::seq::Seq<vstd::prelude::int>> {
        panic!()
    }

    fn add_clause(&mut self, _literals: &Vec<i32>) { /* Do nothing */
    }
}

impl SolverBuilder for StubSolverBuilder {
    type Built = StubSolver;

    fn build(&self) -> StubSolver {
        StubSolver {}
    }
}

struct StubSolver {}

impl Solver for StubSolver {
    fn exhausted(&self) -> bool {
        panic!()
    }

    fn next(&mut self) -> Option<Vec<i32>> {
        None
    }
}

impl ConfigurableSolver for StubSolver {}

impl SolverConfigurator for StubSolver {
    fn clauses(&self) -> vstd::seq::Seq<vstd::seq::Seq<vstd::prelude::int>> {
        panic!()
    }

    fn add_clause(&mut self, _literals: &Vec<i32>) { /* Do nothing. */
    }
}

fn words_of(words: &[&str]) -> Vec<String> {
    words.iter().map(|&word| word.to_string()).collect()
}

#[test]
fn new_ok() {
    let words = words_of(&["ABC", "DEF", "AA", "BB", "CC"]);
    let crossword = Crossword::try_from("...\n...", &words);
    assert!(crossword.is_ok(), "Creation failed");
}

#[test]
fn new_err() {
    let words = words_of(&["ABC", "DEF", "AA", "BB", "CC"]);
    let crossword = Crossword::try_from("___" /* invalid grid */, &words);
    assert!(
        crossword.is_err(),
        "Creation succeeded, while it should have failed"
    );
    assert_eq!(
        Err("Invalid value at row #0: _".to_string()),
        crossword.map(|_| ())
    );
}

#[test]
fn solve_with() {
    let words = words_of(&["ABC", "DEF", "AA", "BB", "CC"]);
    let crossword = Crossword::try_from("...\n...", &words).unwrap();
    let stub_solver = StubSolver {};

    let mut solutions = crossword.solve_with(stub_solver);
    assert_eq!(None, solutions.next())
}

#[test]
fn solve_with_builder() {
    let words = words_of(&["ABC", "DEF", "AA", "BB", "CC"]);
    let crossword = Crossword::try_from("...\n...", &words).unwrap();
    let stub_solver_builder = StubSolverBuilder {};

    let mut solutions = crossword.solve_with_solver_built_by(stub_solver_builder);
    assert_eq!(None, solutions.next())
}

#[test]
fn crossword_new_ok() {
    let words = words_of(&["ABC", "DEF", "AA", "BB", "CC"]);
    let crossword = Crossword::try_from("...\n...", &words);
    assert_eq!(true, crossword.is_ok(), "Creation failed");
}

#[test]
fn crossword_new_err() {
    let words = words_of(&["ABC", "DEF", "AA", "BB", "CC"]);
    let crossword = Crossword::try_from("___" /* invalid grid */, &words);
    assert_eq!(
        true,
        crossword.is_err(),
        "Creation succeeded, while it should have failed"
    );
}

#[test]
fn crossword_solve_with() {
    let words = words_of(&["ABC", "DEF", "AA", "BB", "CC"]);
    let crossword = Crossword::try_from("...\n...", &words).unwrap();
    let stub_solver = StubSolver {};

    let mut solutions = crossword.solve_with(stub_solver);
    assert_eq!(None, solutions.next())
}

#[test]
fn from_with_borrowed_words() {
    let words = vec!["ABC", "DEF", "AA", "BB", "CC"];
    let crossword = Crossword::from("...\n...", &words);
    assert!(crossword.is_ok(), "Creation failed");
    let invalid = Crossword::from("___", &words);
    assert_eq!(
        Err("Invalid value at row #0: _".to_string()),
        invalid.map(|_| ())
    );
}
