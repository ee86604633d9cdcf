use croissant::constraints::Constraints;
use croissant::grid::Grid;
use croissant::solver::SolverConfigurator;
use croissant::variables::Variables;
use std::collections::HashMap;

/// Records clauses, exactly-one groups and equivalences separately, so that
/// each constraint family can be audited.
struct TestSolverBuilder {
    clauses: Vec<Vec<i32>>,
    exactly_one_clauses: Vec<Vec<i32>>,
    and_clauses: HashMap<i32, Vec<i32>>,
}

impl TestSolverBuilder {
    fn new() -> Self {
        TestSolverBuilder {
            clauses: vec![],
            exactly_one_clauses: vec![],
            and_clauses: HashMap::new(),
        }
    }
}

impl SolverConfigurator for TestSolverBuilder {
    fn clauses(&self) -> vstd::seq::Seq<vstd::seq::Seq<vstd::prelude::int>> {
        panic!()
    }

    fn add_clause(&mut self, literals: &Vec<i32>) {
        let literals_copy = literals.to_vec();
        self.clauses.push(literals_copy)
    }

    fn add_exactly_one(&mut self, literals: &Vec<i32>) {
        let literals_copy = literals.to_vec();
        self.exactly_one_clauses.push(literals_copy)
    }

    fn add_and(&mut self, literal: i32, conjunction: &Vec<i32>) {
        let conjunction_copy = conjunction.to_vec();
        self.and_clauses.insert(literal, conjunction_copy);
    }
}

fn words_of(words: &[&str]) -> Vec<String> {
    words.iter().map(|&word| word.to_string()).collect()
}

fn constraints_for(grid_text: &str, words: &Vec<String>) -> Constraints {
    let grid = Grid::from(grid_text).unwrap();
    let variables = Variables::new(grid.clone(), words.len());
    Constraints::new(grid, variables, words)
}

#[test]
fn constraints_add_one_letter_or_block_per_cell_clauses_to() {
    let mut test_solver = TestSolverBuilder::new();
    let words = words_of(&[]);
    let constraints = constraints_for("...\n...", &words);

    constraints.add_one_letter_or_block_per_cell_clauses_to(&mut test_solver);

    assert_eq!(true, test_solver.clauses.is_empty(), "Unexpected clauses");
    let expected_exactly_one_clauses: Vec<Vec<i32>> = vec![
        // For each cell, exactly one value among the 27 possible
        vec![
            1, 2, 3, 4, 5, 6, 7, 8, 9, 10, 11, 12, 13, 14, 15, 16, 17, 18, 19, 20, 21, 22, 23,
            24, 25, 26, 27,
        ],
        vec![
            28, 29, 30, 31, 32, 33, 34, 35, 36, 37, 38, 39, 40, 41, 42, 43, 44, 45, 46, 47, 48,
            49, 50, 51, 52, 53, 54,
        ],
        vec![
            55, 56, 57, 58, 59, 60, 61, 62, 63, 64, 65, 66, 67, 68, 69, 70, 71, 72, 73, 74, 75,
            76, 77, 78, 79, 80, 81,
        ],
        vec![
            82, 83, 84, 85, 86, 87, 88, 89, 90, 91, 92, 93, 94, 95, 96, 97, 98, 99, 100, 101,
            102, 103, 104, 105, 106, 107, 108,
        ],
        vec![
            109, 110, 111, 112, 113, 114, 115, 116, 117, 118, 119, 120, 121, 122, 123, 124,
            125, 126, 127, 128, 129, 130, 131, 132, 133, 134, 135,
        ],
        vec![
            136, 137, 138, 139, 140, 141, 142, 143, 144, 145, 146, 147, 148, 149, 150, 151,
            152, 153, 154, 155, 156, 157, 158, 159, 160, 161, 162,
        ],
    ];
    assert_eq!(expected_exactly_one_clauses, test_solver.exactly_one_clauses);
    assert_eq!(true, test_solver.and_clauses.is_empty(), "Unexpected clauses");
}

#[test]
fn add_one_word_per_slot_clauses_to() {
    let mut test_solver = TestSolverBuilder::new();
    let words = words_of(&["ABC", "DEF", "AA", "BB", "CC"]);
    let constraints = constraints_for("...\n#..", &words);

    constraints.add_one_word_per_slot_clauses_to(&mut test_solver);

    assert_eq!(true, test_solver.clauses.is_empty(), "Unexpected clauses");
    assert_eq!(
        vec![
            // For each slot, exactly one word (of the same length)
            vec![163, 164],      // "ABC" or "DEF" for first across slot
            vec![170, 171, 172], // "AA" or "BB" or "CC" for second across slot
            vec![175, 176, 177], // "AA" or "BB" or "CC" for first down slot
            vec![180, 181, 182], // "AA" or "BB" or "CC" for second down slot
        ],
        test_solver.exactly_one_clauses
    );
    assert_eq!(
        HashMap::from([
            (163, vec![1, 29, 57]), // "ABC" at first across slot <=> 'A' at (0,0) and 'B' at (1,0) and 'C' at (2,0)
            (164, vec![4, 32, 60]), // "DEF" at first across slot <=> 'D' at (0,0) and 'E' at (1,0) and 'F' at (2,0)
            (170, vec![109, 136]), // "AA" at second across slot <=> 'A' at (1,1) and 'A' at (2,1)
            (171, vec![110, 137]), // "BB" at second across slot <=> 'B' at (1,1) and 'B' at (2,1)
            (172, vec![111, 138]), // "CC" at second across slot <=> 'C' at (1,1) and 'C' at (2,1)
            (175, vec![28, 109]),   // "AA" at first down slot <=> 'A' at (1,0) and 'A' at (1,1)
            (176, vec![29, 110]),   // "BB" at first down slot <=> 'B' at (1,0) and 'B' at (1,1)
            (177, vec![30, 111]),   // "CC" at first down slot <=> 'C' at (1,0) and 'C' at (1,1)
            (180, vec![55, 136]),   // "AA" at second down slot <=> 'A' at (2,0) and 'A' at (2,1)
            (181, vec![56, 137]),   // "BB" at second down slot <=> 'B' at (2,0) and 'B' at (2,1)
            (182, vec![57, 138]),   // "CC" at second down slot <=> 'C' at (2,0) and 'C' at (2,1)
        ]),
        test_solver.and_clauses
    );
}

#[test]
fn add_one_word_per_slot_clauses_to_no_word() {
    let mut test_solver = TestSolverBuilder::new();
    let words = words_of(&[]);
    let constraints = constraints_for("...\n...", &words);

    constraints.add_one_word_per_slot_clauses_to(&mut test_solver);

    // For each of the 5 slots, an empty exactly-one: the slot cannot be filled.
    assert_eq!(true, test_solver.clauses.is_empty(), "Unexpected clauses");
    let expected: Vec<Vec<i32>> = vec![vec![], vec![], vec![], vec![], vec![]];
    assert_eq!(expected, test_solver.exactly_one_clauses);
    assert_eq!(true, test_solver.and_clauses.is_empty(), "Unexpected clauses");
}

#[test]
fn add_input_grid_constraints_are_satisfied_clauses_to() {
    let mut test_solver = TestSolverBuilder::new();
    let words = words_of(&[]);
    let constraints = constraints_for("A#..#Z", &words);

    constraints.add_input_grid_constraints_are_satisfied_clauses_to(&mut test_solver);

    let expected_clauses = vec![
        vec![1],
        vec![54],
        vec![-81],
        vec![-108],
        vec![135],
        vec![161],
    ];
    assert_eq!(expected_clauses, test_solver.clauses);
    assert_eq!(
        true,
        test_solver.exactly_one_clauses.is_empty(),
        "Unexpected clauses"
    );
    assert_eq!(true, test_solver.and_clauses.is_empty(), "Unexpected clauses");
}
