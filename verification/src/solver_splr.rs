//! A solver backend built on the splr SAT solver: the builder accumulates the
//! clauses, the solver enumerates the models by successive refutation.

use crate::semantics::refutation_of;
use crate::solver::{clause_views, lits_of, Solver, SolverBuilder, SolverConfigurator};
use splr::solver::Solver as SplrCore;
use splr::solver::{SatSolverIF, SolveIF};
use vstd::prelude::*;

verus! {

#[verifier::external_type_specification]
#[verifier::external_body]
pub struct ExSplrSolver(SplrCore);

/// Relies on splr's `Solver::try_from((Config::default(), clauses))`: the
/// returned solver holds exactly the given clauses. A root-level conflict -
/// the clause set is trivially unsatisfiable - or an invalid literal yields
/// [None].
#[verifier::external_body]
fn splr_solver_from(clauses: &Vec<Vec<i32>>) -> (solver: Option<SplrCore>) {
    SplrCore::try_from((splr::Config::default(), clauses.as_slice())).ok()
}

/// Relies on splr's `Solver::default()`: an empty solver, used as a stand-in
/// when construction failed and no model will ever be asked for.
#[verifier::external_body]
fn splr_default_solver() -> (solver: SplrCore) {
    SplrCore::default()
}

/// Relies on splr's `SatSolverIF::add_clause`: adds the clause to the solver's
/// problem; an error reports the problem inconsistent or the clause invalid.
#[verifier::external_body]
fn splr_add_clause(solver: &mut SplrCore, clause: &Vec<i32>) -> (ok: bool) {
    solver.add_clause(clause.as_slice()).is_ok()
}

/// Relies on splr's `SatSolverIF::reset`: reinitializes the search state for
/// incremental solving, keeping the problem's clauses.
#[verifier::external_body]
fn splr_reset(solver: &mut SplrCore) {
    solver.reset();
}

/// Relies on splr's `SolveIF::solve`: a `SAT` certificate carries an
/// assignment of the problem's variables, sorted by variable order; `UNSAT`
/// or a solver error yields [None].
#[verifier::external_body]
fn splr_solve(solver: &mut SplrCore) -> (model: Option<Vec<i32>>) {
    match solver.solve() {
        Ok(splr::Certificate::SAT(answer)) => Some(answer),
        Ok(splr::Certificate::UNSAT) => None,
        Err(_) => None,
    }
}

/// Implementation of [SolverBuilder] accumulating the clauses for splr.
pub struct SplrSolverBuilder {
    clauses: Vec<Vec<i32>>,
    relevant_max: usize,
}

impl SplrSolverBuilder {
    /// Creates an instance with no clause.
    pub fn new() -> (builder: Self)
        ensures
            builder.clauses() == Seq::<Seq<int>>::empty(),
    {
        let builder = SplrSolverBuilder { clauses: Vec::new(), relevant_max: 0 };
        proof {
            assert(builder.clauses() =~= Seq::<Seq<int>>::empty());
        }
        builder
    }
}

impl SolverConfigurator for SplrSolverBuilder {
    closed spec fn clauses(&self) -> Seq<Seq<int>> {
        clause_views(self.clauses.deep_view())
    }

    fn set_relevant_variables(&mut self, relevant_variables: Vec<usize>) {
        // Only the largest relevant variable matters: the relevant set is a
        // contiguous range starting at 1.
        let mut max: usize = 0;
        let mut i: usize = 0;
        while i < relevant_variables.len()
            invariant
                max <= i32::MAX,
            decreases relevant_variables@.len() - i,
        {
            let id = relevant_variables[i];
            if id > max && id <= (i32::MAX as usize) {
                max = id;
            }
            i += 1;
        }
        self.relevant_max = max;
    }

    fn add_clause(&mut self, literals: &Vec<i32>) {
        let mut copy: Vec<i32> = Vec::new();
        let mut i: usize = 0;
        while i < literals.len()
            invariant
                i <= literals@.len(),
                copy@ =~= literals@.take(i as int),
            decreases literals@.len() - i,
        {
            copy.push(literals[i]);
            i += 1;
        }
        proof {
            assert(copy@ =~= literals@);
        }
        let ghost copied = copy@;
        self.clauses.push(copy);
        proof {
            assert(self.clauses.deep_view() =~~= old(self).clauses.deep_view().push(copied));
            assert(clause_views(old(self).clauses.deep_view().push(copied)) =~= clause_views(
                old(self).clauses.deep_view(),
            ).push(lits_of(copied)));
            assert(self.clauses() =~= old(self).clauses().push(lits_of(literals@)));
        }
    }
}

impl SolverBuilder for SplrSolverBuilder {
    type Built = SplrSolver;

    fn build(&self) -> (solver: SplrSolver) {
        match splr_solver_from(&self.clauses) {
            Some(solver) => SplrSolver {
                solver,
                relevant_max: self.relevant_max,
                last_solution: Vec::new(),
                no_more_solution: false,
            },
            None => SplrSolver {
                solver: splr_default_solver(),
                relevant_max: self.relevant_max,
                last_solution: Vec::new(),
                no_more_solution: true,
            },
        }
    }
}

/// Implementation of [Solver] wrapping the splr SAT solver.
pub struct SplrSolver {
    /// The actual solver.
    solver: SplrCore,
    /// The largest relevant variable; solutions are compared - and refuted -
    /// on the variables up to this one only.
    relevant_max: usize,
    /// The last solution found, restricted to the relevant variables, or an
    /// empty vector.
    last_solution: Vec<i32>,
    /// Whether there is no solution left.
    no_more_solution: bool,
}

impl SplrSolver {
    /// Computes the clause refuting the last solution: the negation of every
    /// assigned relevant literal.
    fn refutation_clause(&self) -> (clause: Vec<i32>)
        ensures
            self.last_solution@.len() <= i32::MAX ==> lits_of(clause@) == refutation_of(
                self.last_solution@,
            ),
    {
        crate::solver::refutation_clause_for(&self.last_solution)
    }
}

impl Solver for SplrSolver {
    closed spec fn exhausted(&self) -> bool {
        self.no_more_solution
    }

    fn next(&mut self) -> (model: Option<Vec<i32>>) {
        if self.no_more_solution {
            return None;
        }
        if self.last_solution.len() > 0 {
            // Refute the last solution, so that the next model differs on the
            // relevant variables. An empty or rejected refutation ends the
            // enumeration.
            let refutation = self.refutation_clause();
            if refutation.len() == 0 {
                self.no_more_solution = true;
                return None;
            }
            let added = splr_add_clause(&mut self.solver, &refutation);
            if !added {
                self.no_more_solution = true;
                return None;
            }
            splr_reset(&mut self.solver);
            self.last_solution = Vec::new();
        }
        match splr_solve(&mut self.solver) {
            Some(answer) => {
                // Record the solution restricted to the relevant variables.
                let mut recorded: Vec<i32> = Vec::new();
                let mut i: usize = 0;
                let mut limit = if self.relevant_max < answer.len() {
                    self.relevant_max
                } else {
                    answer.len()
                };
                if limit > (i32::MAX as usize) {
                    limit = i32::MAX as usize;
                }
                while i < limit
                    invariant
                        i <= limit,
                        limit <= answer@.len(),
                        recorded@.len() == i,
                    decreases limit - i,
                {
                    recorded.push(answer[i]);
                    i += 1;
                }
                self.last_solution = recorded;
                Some(answer)
            },
            None => {
                self.no_more_solution = true;
                None
            },
        }
    }
}

} // verus!
