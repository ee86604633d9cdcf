//! # A crossword, defined as a boolean satisfiability problem
//!
//! The problem definition follows.
//!
//! ## Variables
//!
//! - Cell variables: For each pair (cell,value) is associated a variable.
//! - Slot variables: For each pair (slot,word) is associated a variable. They are placed "after"
//!   the cell variables in the model.
//!
//! ## Constraints
//!
//! 1. Each cell must contain one and only one letter from the alphabet or a block.
//! 2. Each slot must contain one and only one word from the input word list. This is the tricky
//!    part, as there must be a correspondence between cell variables and slot variables:
//!    each slot variable - i.e. a representation of a (slot,word) pair - is equivalent to a
//!    conjunction (= and) of cell variables - i.e. (cell,letter) pairs.
//! 3. Prefilled cells must be kept as is.

use crate::constraints::{c1_clauses, c2_clauses, c3_clauses, words_alphabetic, Constraints};
use crate::grid::{
    across_slots_upto, down_slots_upto, rows_valid, split_lines, validation_error_message, Grid,
};
use crate::solver::{ConfigurableSolver, Solver, SolverBuilder, SolverConfigurator};
use crate::text;
use crate::variables::{decoded_grid, model_covers, Variables, CELL_VALUE_COUNT};
use vstd::prelude::*;

verus! {

/// The message reported when the problem needs more variables than a solver
/// literal can address.
pub open spec fn size_error_message() -> Seq<char> {
    "Grid and word list require too many variables"@
}

/// The number of SAT variables a grid and a word list ask for: 27 variables
/// per cell, then one variable per slot and word.
pub open spec fn spec_variable_count(rows: Seq<Seq<char>>, word_count: int) -> int {
    let row_count = rows.len() as int;
    let column_count = if rows.len() == 0 {
        0int
    } else {
        rows[0].len() as int
    };
    let slot_count = (across_slots_upto(rows, row_count) + down_slots_upto(
        rows,
        column_count,
    )).len() as int;
    row_count * column_count * (CELL_VALUE_COUNT as int) + slot_count * word_count
}

/// The whole clause set of a crossword problem: one letter or block per cell,
/// then exactly one word per slot, then the prefilled cells.
pub open spec fn problem_clauses(grid: Grid, words: Seq<Seq<char>>) -> Seq<Seq<int>> {
    let row_count = grid.spec_row_count();
    let column_count = grid.spec_column_count();
    let cell_count = row_count * column_count * (CELL_VALUE_COUNT as int);
    c1_clauses(row_count, column_count) + c2_clauses(
        column_count,
        cell_count,
        words.len() as int,
        grid.slots_spec(),
        words,
    ) + c3_clauses(grid@, column_count)
}

/// A model satisfying the whole clause set of a crossword problem satisfies
/// each of its three constraint families: the per-cell laws, the per-slot
/// laws and the round trip then apply to it.
pub proof fn lemma_problem_clauses_split(
    model: Seq<i32>,
    grid: Grid,
    words: Seq<Seq<char>>,
)
    requires
        crate::semantics::all_sat(model, problem_clauses(grid, words)),
    ensures
        crate::semantics::all_sat(
            model,
            c1_clauses(grid.spec_row_count(), grid.spec_column_count()),
        ),
        crate::semantics::all_sat(
            model,
            c2_clauses(
                grid.spec_column_count(),
                grid.spec_row_count() * grid.spec_column_count() * (CELL_VALUE_COUNT as int),
                words.len() as int,
                grid.slots_spec(),
                words,
            ),
        ),
        crate::semantics::all_sat(model, c3_clauses(grid@, grid.spec_column_count())),
{
    let row_count = grid.spec_row_count();
    let column_count = grid.spec_column_count();
    let cell_count = row_count * column_count * (CELL_VALUE_COUNT as int);
    let c1 = c1_clauses(row_count, column_count);
    let c2 = c2_clauses(column_count, cell_count, words.len() as int, grid.slots_spec(), words);
    let c3 = c3_clauses(grid@, column_count);
    crate::semantics::lemma_all_sat_concat(model, c1 + c2, c3);
    crate::semantics::lemma_all_sat_concat(model, c1, c2);
}

/// A crossword, defined as a boolean satisfiability problem.
pub struct Crossword {
    variables: Variables,
    constraints: Constraints,
}

impl Crossword {
    /// The variable translation of the problem.
    pub closed spec fn spec_variables(&self) -> Variables {
        self.variables
    }

    /// The constraints of the problem.
    pub closed spec fn spec_constraints(&self) -> Constraints {
        self.constraints
    }

    /// The rows of the grid of the problem.
    pub open spec fn spec_grid(&self) -> Grid {
        self.spec_constraints().spec_grid()
    }

    /// The words of the problem.
    pub open spec fn spec_words(&self) -> Seq<Seq<char>> {
        self.spec_constraints().spec_words()
    }

    /// Well-formedness: constraints and variables are derived from the same
    /// grid and word list.
    pub open spec fn wf(&self) -> bool {
        &&& self.spec_constraints().wf()
        &&& self.spec_variables().wf()
        &&& self.spec_variables().spec_grid()@ == self.spec_grid()@
        &&& self.spec_variables().spec_word_count() == self.spec_words().len()
    }

    /// Creates a new crossword from given grid and word list.
    ///
    /// ## Arguments
    ///
    /// - `input_grid`: A string representing the grid rows. '.' indicates a blank cell, '#'
    ///   indicates a block.
    /// - `words`: The word list. Words must contain only letters from 'A' to 'Z'; anything else
    ///   must be filtered out upstream.
    ///
    /// ## Returns
    ///
    /// A [Result] with the created Crossword, or a String containing the error details.
    pub fn try_from(input_grid: &str, words: &Vec<String>) -> (result: Result<Self, String>)
        requires
            words_alphabetic(words.deep_view()),
        ensures
            result is Ok <==> rows_valid(split_lines(input_grid@)) && spec_variable_count(
                split_lines(input_grid@),
                words.deep_view().len() as int,
            ) <= i32::MAX,
            result is Ok ==> {
                let crossword = result->Ok_0;
                &&& crossword.wf()
                &&& crossword.spec_grid()@ == split_lines(input_grid@)
                &&& crossword.spec_words() == words.deep_view()
            },
            !rows_valid(split_lines(input_grid@)) ==> result is Err && result->Err_0@
                == validation_error_message(split_lines(input_grid@)),
            result is Err ==> !rows_valid(split_lines(input_grid@)) || result->Err_0@
                == size_error_message(),
    {
        let grid = match Grid::from(input_grid) {
            Ok(grid) => grid,
            Err(error) => {
                return Err(error);
            },
        };
        let word_count = words.len();
        let row_count = grid.row_count();
        let column_count = grid.column_count();
        let slot_count = grid.slot_count();
        let ghost total_wanted = spec_variable_count(
            split_lines(input_grid@),
            words.deep_view().len() as int,
        );
        proof {
            assert(grid.slots_spec() == across_slots_upto(grid@, grid@.len() as int)
                + down_slots_upto(grid@, grid.spec_column_count()));
            assert(total_wanted == row_count * column_count * (CELL_VALUE_COUNT as int)
                + slot_count * word_count);
        }
        let size_ok = match row_count.checked_mul(column_count) {
            Some(cells) => match cells.checked_mul(CELL_VALUE_COUNT) {
                Some(cell_variables) => match slot_count.checked_mul(word_count) {
                    Some(slot_variables) => match cell_variables.checked_add(slot_variables) {
                        Some(total) => total <= (i32::MAX as usize),
                        None => false,
                    },
                    None => false,
                },
                None => false,
            },
            None => false,
        };
        proof {
            // The checked computation succeeds exactly when the wanted count
            // fits the positive literals of an i32: each partial product is
            // then below the total, which itself fits the machine word.
            if total_wanted <= i32::MAX {
                assert(row_count * column_count <= row_count * column_count * 27 && 0 <= row_count
                    * column_count && 0 <= slot_count * word_count) by (nonlinear_arith)
                    requires
                        0 <= row_count && 0 <= column_count && 0 <= slot_count && 0 <= word_count,
                ;
                assert(size_ok);
            }
            if size_ok {
                assert(total_wanted <= i32::MAX);
            }
        }
        if !size_ok {
            let mut message: Vec<char> = Vec::new();
            text::push_str_chars(&mut message, "Grid and word list require too many variables");
            return Err(text::chars_to_string(&message));
        }
        let grid_of_variables = grid.clone();
        let variables = Variables::new(grid_of_variables, word_count);
        let constraints = Constraints::new(grid, variables.clone(), words);
        Ok(Crossword { variables, constraints })
    }

    /// Creates a new crossword from given grid and word list, the words
    /// borrowed as string slices. The effect is [Self::try_from]'s.
    pub fn from(input_grid: &str, words: &Vec<&str>) -> (result: Result<Self, String>)
        requires
            words_alphabetic(words.deep_view()),
        ensures
            result is Ok <==> rows_valid(split_lines(input_grid@)) && spec_variable_count(
                split_lines(input_grid@),
                words.deep_view().len() as int,
            ) <= i32::MAX,
            result is Ok ==> {
                let crossword = result->Ok_0;
                &&& crossword.wf()
                &&& crossword.spec_grid()@ == split_lines(input_grid@)
                &&& crossword.spec_words() == words.deep_view()
            },
            !rows_valid(split_lines(input_grid@)) ==> result is Err && result->Err_0@
                == validation_error_message(split_lines(input_grid@)),
            result is Err ==> !rows_valid(split_lines(input_grid@)) || result->Err_0@
                == size_error_message(),
    {
        let mut owned_words: Vec<String> = Vec::new();
        let mut i: usize = 0;
        while i < words.len()
            invariant
                i <= words@.len(),
                owned_words@.len() == i,
                forall|k: int| 0 <= k < i ==> #[trigger] owned_words@[k]@ == words@[k]@,
            decreases words@.len() - i,
        {
            owned_words.push(words[i].to_owned());
            i += 1;
        }
        proof {
            assert(owned_words.deep_view() =~= words.deep_view());
        }
        Self::try_from(input_grid, &owned_words)
    }

    /// Solves this problem with the solver built using given [SolverBuilder]. Note that solutions
    /// may not be actually computed when this function returns: they may be created as late as
    /// when calling [CrosswordSolutions::next].
    pub fn solve_with_solver_built_by<B: SolverBuilder>(self, solver_builder: B) -> (solutions:
        CrosswordSolutions<B::Built>)
        requires
            self.wf(),
        ensures
            solutions.wf(),
            solutions.spec_variables() == self.spec_variables(),
    {
        let mut builder = solver_builder;
        self.add_clauses_to(&mut builder);
        let solver = builder.build();
        CrosswordSolutions::new(self.variables, solver)
    }

    /// Solves this problem with given [ConfigurableSolver]. Note that solutions may not be
    /// actually computed when this function returns: they may be created as late as when calling
    /// [CrosswordSolutions::next].
    pub fn solve_with<S: ConfigurableSolver>(self, solver: S) -> (solutions: CrosswordSolutions<
        S,
    >)
        requires
            self.wf(),
        ensures
            solutions.wf(),
            solutions.spec_variables() == self.spec_variables(),
            solutions.spec_solver().clauses() == solver.clauses() + problem_clauses(
                self.spec_grid(),
                self.spec_words(),
            ),
    {
        let mut configured = solver;
        self.add_clauses_to(&mut configured);
        CrosswordSolutions::new(self.variables, configured)
    }

    /// Adds the problem's clauses to the given solver configurator, after
    /// handing it the variable count and the relevant variables as hints.
    fn add_clauses_to<S: SolverConfigurator>(&self, solver_configurator: &mut S)
        requires
            self.wf(),
        ensures
            final(solver_configurator).clauses() == old(solver_configurator).clauses()
                + problem_clauses(self.spec_grid(), self.spec_words()),
    {
        solver_configurator.allocate_variables(self.variables.count());
        solver_configurator.set_relevant_variables(self.variables.representing_cells());
        self.constraints.add_one_letter_or_block_per_cell_clauses_to(solver_configurator);
        self.constraints.add_one_word_per_slot_clauses_to(solver_configurator);
        self.constraints.add_input_grid_constraints_are_satisfied_clauses_to(solver_configurator);
        proof {
            assert(final(solver_configurator).clauses() =~= old(solver_configurator).clauses()
                + problem_clauses(self.spec_grid(), self.spec_words()));
        }
    }
}

/// An iterator over crossword solutions.
pub struct CrosswordSolutions<S: Solver> {
    variables: Variables,
    solver: S,
}

impl<S: Solver> CrosswordSolutions<S> {
    /// The variable translation used to decode the models.
    pub closed spec fn spec_variables(&self) -> Variables {
        self.variables
    }

    /// The underlying solver.
    pub closed spec fn spec_solver(&self) -> S {
        self.solver
    }

    /// Well-formedness: the decoder's variable translation is well formed.
    pub open spec fn wf(&self) -> bool {
        self.spec_variables().wf()
    }

    /// Wires a model producer to the variable translation decoding its models.
    fn new(variables: Variables, solver: S) -> (solutions: Self)
        ensures
            solutions.spec_variables() == variables,
            solutions.spec_solver() == solver,
    {
        CrosswordSolutions { variables, solver }
    }

    /// Returns the next solution, or [None] when the solver has no more
    /// models. Every returned grid is the decoding of a model of the solver;
    /// an exhausted solver stays exhausted and yields nothing further.
    pub fn next(&mut self) -> (solution: Option<String>)
        requires
            old(self).wf(),
        ensures
            final(self).wf(),
            final(self).spec_variables() == old(self).spec_variables(),
            old(self).spec_solver().exhausted() ==> solution is None
                && final(self).spec_solver().exhausted(),
            solution is Some ==> exists|model: Seq<i32>|
                model_covers(
                    model,
                    old(self).spec_variables().spec_grid().spec_row_count(),
                    old(self).spec_variables().spec_grid().spec_column_count(),
                ) && solution->Some_0@ == decoded_grid(
                    model,
                    old(self).spec_variables().spec_grid().spec_row_count(),
                    old(self).spec_variables().spec_grid().spec_column_count(),
                ),
    {
        match self.solver.next() {
            None => None,
            Some(model) => {
                // A conforming backend's model satisfies the cell constraints;
                // anything else ends the enumeration.
                if self.variables.model_covers_cells(&model) {
                    Some(self.variables.back_to_domain(&model))
                } else {
                    None
                }
            },
        }
    }
}

} // verus!
