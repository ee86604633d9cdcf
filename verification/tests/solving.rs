use croissant::crossword::{Crossword, CrosswordSolutions};
use croissant::solver::Solver;
use croissant::solver_cadical::CadicalSolver;
use croissant::solver_splr::{SplrSolver, SplrSolverBuilder};
use std::collections::HashSet;

/// Solves the given grid using the splr solver.
fn solve(grid: &str, words: &[&str]) -> CrosswordSolutions<SplrSolver> {
    let words_vec: Vec<String> = words.iter().map(|&word| word.to_string()).collect();
    let crossword = Crossword::try_from(grid, &words_vec).unwrap();
    let solver_builder = SplrSolverBuilder::new();
    crossword.solve_with_solver_built_by(solver_builder)
}

/// Solves the given grid using the cadical solver.
fn solve_cadical(grid: &str, words: &[&str]) -> CrosswordSolutions<CadicalSolver> {
    let words_vec: Vec<String> = words.iter().map(|&word| word.to_string()).collect();
    let crossword = Crossword::try_from(grid, &words_vec).unwrap();
    crossword.solve_with(CadicalSolver::new())
}

/// Helper to verify that all solutions are present, in any order.
fn assert_solutions_eq<S: Solver>(
    expected_solutions: &[&str],
    actual_solutions: &mut CrosswordSolutions<S>,
) {
    let mut expected_solutions: HashSet<&str> = expected_solutions.iter().copied().collect();
    while let Some(solution) = actual_solutions.next() {
        assert!(
            expected_solutions.remove(solution.as_str()),
            "Unexpected solution: {solution:?}"
        );
    }
    assert!(
        expected_solutions.is_empty(),
        "Missing solutions: {expected_solutions:?}"
    );
}

#[test]
fn trivial() {
    let mut solutions = solve("...\n...\n...", &["AAA", "BBB", "CDE", "ABC", "ABD", "ABE"]);
    assert_solutions_eq(
        &[
            "BBB\nBBB\nBBB",
            "ABC\nABD\nABE",
            "AAA\nBBB\nCDE",
            "AAA\nAAA\nAAA",
        ],
        &mut solutions,
    );
}

#[test]
fn partially_prefilled_1x3() {
    let mut solutions = solve("AB.", &["ABC"]);
    assert_solutions_eq(&["ABC"], &mut solutions);
}

#[test]
fn partially_prefilled_3x3() {
    let mut solutions = solve("ABC\n...\n...", &["AAA", "BBB", "CDE", "ABC", "ABD", "ABE"]);
    assert_solutions_eq(&["ABC\nABD\nABE"], &mut solutions);
}

#[test]
fn with_blocks() {
    let mut solutions = solve_cadical("ABC\n..#\n#..", &["AA", "BBB", "ABC", "AB", "BE"]);
    assert_solutions_eq(&["ABC\nAB#\n#BE"], &mut solutions);
}

#[test]
fn impossible_no_solution() {
    let mut solutions = solve(
        "ABC\n...\n...",
        &[
            "AAA", "BBB", "CDF", /* should be CDE */
            "ABC", "ABD", "ABE",
        ],
    );
    assert_solutions_eq(&[], &mut solutions);
}

#[test]
fn impossible_no_candidate() {
    let mut solutions = solve("...\n...\n...", &[]);
    assert_solutions_eq(&[], &mut solutions);
}

#[test]
fn cadical_trivial() {
    let mut solutions = solve_cadical("...\n...\n...", &["AAA", "BBB", "CDE", "ABC", "ABD", "ABE"]);
    assert_solutions_eq(
        &[
            "BBB\nBBB\nBBB",
            "ABC\nABD\nABE",
            "AAA\nBBB\nCDE",
            "AAA\nAAA\nAAA",
        ],
        &mut solutions,
    );
}

#[test]
fn cadical_partially_prefilled_1x3() {
    let mut solutions = solve_cadical("AB.", &["ABC"]);
    assert_solutions_eq(&["ABC"], &mut solutions);
}

#[test]
fn logicng_trivial() {
    let words_vec: Vec<String> = ["AAA", "BBB", "CDE", "ABC", "ABD", "ABE"]
        .iter()
        .map(|&word| word.to_string())
        .collect();
    let crossword = Crossword::try_from("...\n...\n...", &words_vec).unwrap();
    let solver_builder = croissant::solver_logicng::LogicngSolverBuilder::new();
    let mut solutions = crossword.solve_with_solver_built_by(solver_builder);
    assert_solutions_eq(
        &[
            "BBB\nBBB\nBBB",
            "ABC\nABD\nABE",
            "AAA\nBBB\nCDE",
            "AAA\nAAA\nAAA",
        ],
        &mut solutions,
    );
}

#[test]
fn logicng_partially_prefilled_1x3() {
    let words_vec: Vec<String> = vec!["ABC".to_string()];
    let crossword = Crossword::try_from("AB.", &words_vec).unwrap();
    let solver_builder = croissant::solver_logicng::LogicngSolverBuilder::new();
    let mut solutions = crossword.solve_with_solver_built_by(solver_builder);
    assert_solutions_eq(&["ABC"], &mut solutions);
}

#[test]
fn exhausted_stays_exhausted() {
    let mut solutions = solve("AB.", &["ABC"]);
    assert!(solutions.next().is_some());
    assert_eq!(None, solutions.next());
    assert_eq!(None, solutions.next());
    assert_eq!(None, solutions.next());
}
