use croissant::solver::SolverConfigurator;

/// Records the clauses it receives; the cardinality shorthands decompose
/// through the default implementations.
struct TestSolverConfigurator {
    clauses: Vec<Vec<i32>>,
}

impl SolverConfigurator for TestSolverConfigurator {
    fn clauses(&self) -> vstd::seq::Seq<vstd::seq::Seq<vstd::prelude::int>> {
        panic!()
    }

    fn add_clause(&mut self, literals: &Vec<i32>) {
        self.clauses.push(literals.to_vec())
    }
}

#[test]
fn add_exactly_one() {
    let mut solver_builder = TestSolverConfigurator { clauses: vec![] };
    let literals = vec![1, 2, 3];

    solver_builder.add_exactly_one(&literals);

    assert_eq!(
        vec![vec![1, 2, 3], vec![-1, -2], vec![-1, -3], vec![-2, -3]],
        solver_builder.clauses
    );
}

#[test]
fn add_at_most_one() {
    let mut solver_builder = TestSolverConfigurator { clauses: vec![] };
    let literals = vec![1, 2, 3];

    solver_builder.add_at_most_one(&literals);

    assert_eq!(
        vec![vec![-1, -2], vec![-1, -3], vec![-2, -3],],
        solver_builder.clauses
    );
}

#[test]
fn add_and() {
    let mut solver_builder = TestSolverConfigurator { clauses: vec![] };
    let conjunction = vec![-1, 6, -7];

    // 42 <=> -1 /\ 6 /\ -7
    solver_builder.add_and(42, &conjunction);

    // (-42 \/ -1) /\ (-42 \/ 6) /\ (-42 \/ -7) /\ (1 \/ -6 \/ 7 \/ 42)
    assert_eq!(
        vec![
            vec![-42, -1],
            vec![-42, 6],
            vec![-42, -7],
            vec![1, -6, 7, 42],
        ],
        solver_builder.clauses
    );
}

#[test]
fn add_at_most_one_count() {
    let mut solver_builder = TestSolverConfigurator { clauses: vec![] };
    let literals = vec![1, 2, 3, 4, 5];

    solver_builder.add_at_most_one(&literals);

    // 5 * 4 / 2 pairwise clauses, each binary
    assert_eq!(10, solver_builder.clauses.len());
    assert!(solver_builder.clauses.iter().all(|clause| clause.len() == 2));

    solver_builder.clauses.clear();
    solver_builder.add_exactly_one(&literals);
    assert_eq!(11, solver_builder.clauses.len());
}

#[test]
fn solver_add_exactly_one() {
    let mut solver_builder = TestSolverConfigurator { clauses: vec![] };
    let literals = vec![1, 2, 3];

    solver_builder.add_exactly_one(&literals);

    assert_eq!(
        vec![vec![1, 2, 3], vec![-1, -2], vec![-1, -3], vec![-2, -3]],
        solver_builder.clauses
    );
}

#[test]
fn solver_add_at_most_one() {
    let mut solver_builder = TestSolverConfigurator { clauses: vec![] };
    let literals = vec![1, 2, 3];

    solver_builder.add_at_most_one(&literals);

    assert_eq!(
        vec![vec![-1, -2], vec![-1, -3], vec![-2, -3],],
        solver_builder.clauses
    );
}

#[test]
fn solver_add_and() {
    let mut solver_builder = TestSolverConfigurator { clauses: vec![] };
    let conjunction = vec![-1, 6, -7];

    // 42 <=> -1 /\ 6 /\ -7
    solver_builder.add_and(42, &conjunction);

    // (-42 \/ -1) /\ (-42 \/ 6) /\ (-42 \/ -7) /\ (1 \/ -6 \/ 7 \/ 42)
    assert_eq!(
        vec![
            vec![-42, -1],
            vec![-42, 6],
            vec![-42, -7],
            vec![1, -6, 7, 42],
        ],
        solver_builder.clauses
    );
}
