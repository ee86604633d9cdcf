//! A solver backend built on the CaDiCaL SAT solver: a single configurable
//! object accepts the clauses and enumerates the models by successive
//! refutation over the relevant variables.

use crate::semantics::refutation_of;
use crate::solver::{
    capped_max, lits_of, lits_ok, refutation_clause_for, ConfigurableSolver, Solver,
    SolverConfigurator,
};
use cadical::Solver as CadicalCore;
use cadical::Timeout as CadicalTimeout;
use vstd::prelude::*;

verus! {

/// The CaDiCaL solver handle. The engine's own type cannot be declared to the
/// verifier - its generics are bound by one of the engine's traits - so it is
/// held opaque, and reached only through the trusted calls below.
#[verifier::external_body]
struct CadicalHandle {
    solver: CadicalCore<CadicalTimeout>,
}

/// Implementation of [ConfigurableSolver] wrapping the CaDiCaL SAT solver.
pub struct CadicalSolver {
    /// The actual solver.
    solver: CadicalHandle,
    /// The problem's relevant variables.
    relevant_variables: Vec<usize>,
    /// The last solution found, restricted to the relevant variables, or an
    /// empty vector.
    last_solution: Vec<i32>,
    /// Whether there is no solution left.
    no_more_solution: bool,
    /// Whether the last call to the solver answered "satisfiable" and no
    /// clause was added since: the values of the solution may be read.
    sat_state: bool,
    /// The clauses handed to the solver so far.
    clause_model: Ghost<Seq<Seq<int>>>,
}

impl CadicalSolver {
    /// Whether the solution's values may be read from the solver.
    spec fn spec_sat_state(&self) -> bool {
        self.sat_state
    }

    /// Creates an instance.
    pub fn new() -> (solver: Self)
        ensures
            solver.clauses() == Seq::<Seq<int>>::empty(),
    {
        CadicalSolver {
            solver: Self::raw_new(),
            relevant_variables: Vec::new(),
            last_solution: Vec::new(),
            no_more_solution: false,
            sat_state: false,
            clause_model: Ghost(Seq::empty()),
        }
    }

    /// Relies on cadical's `Solver::new`: a solver holding no clause.
    #[verifier::external_body]
    fn raw_new() -> (solver: CadicalHandle) {
        CadicalHandle { solver: CadicalCore::new() }
    }

    /// Relies on cadical's `Solver::add_clause`: adds the clause to the
    /// solver's formula; the literals must be nonzero and above `i32::MIN`.
    /// The state of the last solve ends.
    #[verifier::external_body]
    fn raw_add_clause(&mut self, literals: &Vec<i32>)
        requires
            lits_ok(literals@),
        ensures
            final(self).clause_model@ == old(self).clause_model@.push(lits_of(literals@)),
            final(self).relevant_variables == old(self).relevant_variables,
            final(self).last_solution == old(self).last_solution,
            final(self).no_more_solution == old(self).no_more_solution,
            !final(self).spec_sat_state(),
    {
        self.sat_state = false;
        self.solver.solver.add_clause(literals.iter().copied());
    }

    /// Relies on cadical's `Solver::solve`: `Some(true)` when the formula is
    /// satisfiable, `Some(false)` when it is unsatisfiable, `None` when the
    /// solver ran out of resources.
    #[verifier::external_body]
    fn raw_solve(&mut self) -> (result: Option<bool>)
        ensures
            final(self).clause_model@ == old(self).clause_model@,
            final(self).relevant_variables == old(self).relevant_variables,
            final(self).last_solution == old(self).last_solution,
            final(self).no_more_solution == old(self).no_more_solution,
            final(self).spec_sat_state() <==> result == Some(true),
    {
        let result = self.solver.solver.solve();
        self.sat_state = result == Some(true);
        result
    }

    /// Relies on cadical's `Solver::value`: the value of the given literal in
    /// the last solution, or `None` when the formula is satisfied regardless
    /// of it. The last solve must have answered "satisfiable".
    #[verifier::external_body]
    fn raw_value(&self, literal: i32) -> (value: Option<bool>)
        requires
            self.spec_sat_state(),
            literal != 0,
            literal != i32::MIN,
    {
        self.solver.solver.value(literal)
    }

    /// Refutes the last solution found, if any. Otherwise, does nothing.
    fn refute_last_solution(&mut self)
        ensures
            final(self).relevant_variables == old(self).relevant_variables,
            final(self).no_more_solution == old(self).no_more_solution,
            old(self).last_solution@.len() == 0 ==> final(self).clauses() == old(self).clauses(),
            0 < old(self).last_solution@.len() <= i32::MAX ==> final(self).clauses() == old(
                self,
            ).clauses().push(refutation_of(old(self).last_solution@)),
    {
        if self.last_solution.is_empty() {
            return ;
        }
        let not_last_solution = refutation_clause_for(&self.last_solution);
        self.raw_add_clause(&not_last_solution);
    }

    /// Returns the relevant variable with the biggest id, capped at the
    /// largest variable a literal can name; 0 when no relevant variable was
    /// declared.
    fn max_relevant_variable(&self) -> (max: usize)
        ensures
            max as int == capped_max(self.relevant_variables@),
            max <= i32::MAX,
    {
        let mut max: usize = 0;
        let mut i: usize = 0;
        proof {
            assert(self.relevant_variables@.take(0) =~= Seq::<usize>::empty());
        }
        while i < self.relevant_variables.len()
            invariant
                i <= self.relevant_variables@.len(),
                max <= i32::MAX,
                max as int == capped_max(self.relevant_variables@.take(i as int)),
            decreases self.relevant_variables@.len() - i,
        {
            let id = self.relevant_variables[i];
            proof {
                crate::solver::lemma_capped_max_push(
                    self.relevant_variables@.take(i as int),
                    self.relevant_variables@[i as int],
                );
                assert(self.relevant_variables@.take(i as int + 1)
                    =~= self.relevant_variables@.take(i as int).push(
                    self.relevant_variables@[i as int],
                ));
            }
            if id > max && id <= (i32::MAX as usize) {
                max = id;
            }
            i += 1;
        }
        proof {
            assert(self.relevant_variables@.take(self.relevant_variables@.len() as int)
                =~= self.relevant_variables@);
        }
        max
    }

    /// Returns the model of the last solution: the state of each relevant
    /// variable in the solver, 1 for true, -1 for false, 0 for unconstrained.
    fn model(&self) -> (model: Vec<i32>)
        requires
            self.spec_sat_state(),
        ensures
            model@.len() as int == capped_max(self.relevant_variables@),
            forall|i: int|
                0 <= i < model@.len() ==> #[trigger] model@[i] == 1 || model@[i] == -1 || model@[i]
                    == 0,
    {
        let variables_count = self.max_relevant_variable();
        let mut model: Vec<i32> = Vec::new();
        let mut variable: usize = 1;
        while variable <= variables_count
            invariant
                1 <= variable <= variables_count + 1,
                variables_count <= i32::MAX,
                self.spec_sat_state(),
                model@.len() == variable - 1,
                forall|i: int|
                    0 <= i < model@.len() ==> #[trigger] model@[i] == 1 || model@[i] == -1
                        || model@[i] == 0,
            decreases variables_count + 1 - variable,
        {
            let variable_state: i32 = match self.raw_value(variable as i32) {
                Some(true) => 1,
                Some(false) => -1,
                None => 0,
            };
            model.push(variable_state);
            variable += 1;
        }
        model
    }
}

impl Default for CadicalSolver {
    /// An instance holding no clause.
    fn default() -> (solver: Self)
        ensures
            solver.clauses() == Seq::<Seq<int>>::empty(),
    {
        Self::new()
    }
}

impl SolverConfigurator for CadicalSolver {
    closed spec fn clauses(&self) -> Seq<Seq<int>> {
        self.clause_model@
    }

    fn set_relevant_variables(&mut self, relevant_variables: Vec<usize>) {
        self.relevant_variables = relevant_variables;
    }

    fn add_clause(&mut self, literals: &Vec<i32>) {
        self.raw_add_clause(literals);
    }
}

impl Solver for CadicalSolver {
    closed spec fn exhausted(&self) -> bool {
        self.no_more_solution
    }

    fn next(&mut self) -> (model: Option<Vec<i32>>) {
        if self.no_more_solution {
            return None;
        }
        self.refute_last_solution();
        let satisfiable = match self.raw_solve() {
            Some(true) => true,
            _ => false,
        };
        if !satisfiable {
            self.no_more_solution = true;
            return None;
        }
        let model = self.model();
        // Record a copy of the model, to refute it on the next call.
        let mut recorded: Vec<i32> = Vec::new();
        let mut i: usize = 0;
        while i < model.len()
            invariant
                i <= model@.len(),
                recorded@ =~= model@.take(i as int),
            decreases model@.len() - i,
        {
            recorded.push(model[i]);
            i += 1;
        }
        self.last_solution = recorded;
        Some(model)
    }
}

impl ConfigurableSolver for CadicalSolver {

}

} // verus!
