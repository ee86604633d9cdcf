//! A solver backend built on the logicng library: the builder turns the
//! clauses into formulas of a shared formula factory, the solver runs
//! logicng's MiniSat and enumerates the models by successive refutation over
//! the relevant variables.
//!
//! A variable id `n` is carried through logicng as a variable named by the
//! decimal digits of `n`; reading a model parses the names back.

use crate::semantics::refutation_of;
use crate::solver::{
    lits_of, lits_ok, refutation_clause_for, Solver, SolverBuilder, SolverConfigurator,
};
use crate::text;
use logicng::datastructures::Model;
use logicng::formulas::{EncodedFormula, FormulaFactory, Variable};
use logicng::solver::minisat::sat::Tristate;
use logicng::solver::minisat::MiniSat;
use std::rc::Rc;
use vstd::prelude::*;

verus! {

#[verifier::external_type_specification]
#[verifier::external_body]
pub struct ExFormulaFactory(FormulaFactory);

#[verifier::external_type_specification]
#[verifier::external_body]
pub struct ExEncodedFormula(EncodedFormula);

#[verifier::external_type_specification]
#[verifier::external_body]
pub struct ExVariable(Variable);

#[verifier::external_type_specification]
#[verifier::external_body]
pub struct ExModel(Model);

#[verifier::external_type_specification]
#[verifier::external_body]
pub struct ExMiniSat(MiniSat);

/// Relies on logicng's `FormulaFactory::new`: a fresh formula factory.
#[verifier::external_body]
fn lng_new_factory() -> (factory: Rc<FormulaFactory>) {
    Rc::new(FormulaFactory::new())
}

/// Relies on `Rc::clone`: the clone is a handle to the very same factory.
#[verifier::external_body]
fn lng_share_factory(factory: &Rc<FormulaFactory>) -> (shared: Rc<FormulaFactory>) {
    Rc::clone(factory)
}

/// Relies on logicng's `FormulaFactory::lit`: the literal formula of the
/// variable named by the decimal digits of `variable`, with the given phase.
#[verifier::external_body]
fn lng_literal(factory: &Rc<FormulaFactory>, variable: i32, phase: bool) -> (formula:
    EncodedFormula)
    requires
        variable > 0,
{
    factory.lit(variable.to_string().as_str(), phase).into()
}

/// Relies on logicng's `FormulaFactory::or`: the disjunction of the operands.
#[verifier::external_body]
fn lng_or(factory: &Rc<FormulaFactory>, operands: &Vec<EncodedFormula>) -> (formula:
    EncodedFormula) {
    factory.or(operands.as_slice())
}

/// Relies on logicng's `FormulaFactory::var`: the variable named by the
/// decimal digits of `variable`.
#[verifier::external_body]
fn lng_variable(factory: &Rc<FormulaFactory>, variable: i32) -> (result: Variable)
    requires
        variable > 0,
{
    factory.var(variable.to_string().as_str())
}

/// Relies on logicng's `Variable::name`: the name the variable was created
/// under - here, the decimal digits of its id.
#[verifier::external_body]
fn lng_variable_name(variable: &Variable, factory: &Rc<FormulaFactory>) -> (name: String) {
    variable.name(factory).to_string()
}

/// Relies on logicng's `Model::pos`: the variables the model makes true.
#[verifier::external_body]
fn lng_model_pos(model: &Model) -> (variables: Vec<Variable>) {
    model.pos().to_vec()
}

/// Relies on logicng's `Model::neg`: the variables the model makes false.
#[verifier::external_body]
fn lng_model_neg(model: &Model) -> (variables: Vec<Variable>) {
    model.neg().to_vec()
}

/// Implementation of [SolverBuilder] accumulating the clauses as logicng
/// formulas.
pub struct LogicngSolverBuilder {
    /// The helper to create/register boolean formulas.
    formula_factory: Rc<FormulaFactory>,
    /// The created formulas.
    formulas: Vec<EncodedFormula>,
    /// The relevant variables of the problem.
    relevant_variables: Vec<usize>,
    /// The clauses the formulas stand for.
    clause_model: Ghost<Seq<Seq<int>>>,
}

impl LogicngSolverBuilder {
    /// Creates an instance.
    pub fn new() -> (builder: Self)
        ensures
            builder.clauses() == Seq::<Seq<int>>::empty(),
    {
        LogicngSolverBuilder {
            formula_factory: lng_new_factory(),
            formulas: Vec::new(),
            relevant_variables: Vec::new(),
            clause_model: Ghost(Seq::empty()),
        }
    }
}

impl Default for LogicngSolverBuilder {
    /// An instance holding no clause.
    fn default() -> (builder: Self)
        ensures
            builder.clauses() == Seq::<Seq<int>>::empty(),
    {
        Self::new()
    }
}

/// Turns a clause into the disjunction formula of its literals.
fn clause_formula(factory: &Rc<FormulaFactory>, literals: &Vec<i32>) -> (formula: EncodedFormula)
    requires
        lits_ok(literals@),
{
    let mut operands: Vec<EncodedFormula> = Vec::new();
    let mut i: usize = 0;
    while i < literals.len()
        invariant
            lits_ok(literals@),
        decreases literals@.len() - i,
    {
        let literal = literals[i];
        let variable = if literal < 0 {
            -literal
        } else {
            literal
        };
        let phase = literal > 0;
        operands.push(lng_literal(factory, variable, phase));
        i += 1;
    }
    lng_or(factory, &operands)
}

impl SolverConfigurator for LogicngSolverBuilder {
    closed spec fn clauses(&self) -> Seq<Seq<int>> {
        self.clause_model@
    }

    fn set_relevant_variables(&mut self, relevant_variables: Vec<usize>) {
        self.relevant_variables = relevant_variables;
    }

    fn add_clause(&mut self, literals: &Vec<i32>) {
        let formula = clause_formula(&self.formula_factory, literals);
        self.formulas.push(formula);
        self.clause_model = Ghost(self.clause_model@.push(lits_of(literals@)));
    }
}

impl SolverBuilder for LogicngSolverBuilder {
    type Built = LogicngSolver;

    fn build(&self) -> (solver: LogicngSolver) {
        LogicngSolver::new(
            &self.formulas,
            &self.formula_factory,
            &self.relevant_variables,
            Ghost(self.clauses()),
        )
    }
}

/// Implementation of [Solver] wrapping logicng's MiniSat.
pub struct LogicngSolver {
    /// The actual solver.
    solver: MiniSat,
    /// The helper to retrieve registered formula names.
    formula_factory: Rc<FormulaFactory>,
    /// The relevant variables of the problem.
    relevant_variables: Vec<Variable>,
    /// The largest relevant variable.
    relevant_max: usize,
    /// The last solution found, restricted to the relevant variables, or an
    /// empty vector.
    last_solution: Vec<i32>,
    /// Whether all solutions have been found.
    no_more_solution: bool,
    /// Whether the solver was asked for satisfiability and no formula was
    /// added since: a model may be read.
    solved_state: bool,
    /// The clauses the solver's formulas stand for.
    clause_model: Ghost<Seq<Seq<int>>>,
}

impl LogicngSolver {
    /// The clauses handed to the solver so far, as the builder recorded them.
    pub closed spec fn clauses(&self) -> Seq<Seq<int>> {
        self.clause_model@
    }

    /// Whether a model may be read from the solver.
    spec fn spec_solved_state(&self) -> bool {
        self.solved_state
    }

    /// Relies on logicng's `MiniSat::new`: a solver holding no formula.
    #[verifier::external_body]
    fn raw_new_minisat() -> (solver: MiniSat) {
        MiniSat::new()
    }

    /// Relies on logicng's `MiniSat::add_all`: adds the formulas to the
    /// solver. The state of the last solve ends.
    #[verifier::external_body]
    fn raw_add_all(&mut self, formulas: &Vec<EncodedFormula>)
        ensures
            final(self).relevant_variables == old(self).relevant_variables,
            final(self).relevant_max == old(self).relevant_max,
            final(self).clause_model == old(self).clause_model,
            final(self).last_solution == old(self).last_solution,
            final(self).no_more_solution == old(self).no_more_solution,
            !final(self).spec_solved_state(),
    {
        self.solved_state = false;
        self.solver.add_all(formulas.as_slice(), &self.formula_factory);
    }

    /// Relies on logicng's `MiniSat::add`: adds one formula to the solver.
    /// The state of the last solve ends.
    #[verifier::external_body]
    fn raw_add(&mut self, formula: EncodedFormula)
        ensures
            final(self).relevant_variables == old(self).relevant_variables,
            final(self).relevant_max == old(self).relevant_max,
            final(self).clause_model == old(self).clause_model,
            final(self).last_solution == old(self).last_solution,
            final(self).no_more_solution == old(self).no_more_solution,
            !final(self).spec_solved_state(),
    {
        self.solved_state = false;
        self.solver.add(formula, &self.formula_factory);
    }

    /// Relies on logicng's `MiniSat::sat`: `True` when the formulas are
    /// satisfiable, `False` when they are not; MiniSat never leaves the
    /// answer undefined here.
    #[verifier::external_body]
    fn raw_sat(&mut self) -> (satisfiable: bool)
        ensures
            final(self).relevant_variables == old(self).relevant_variables,
            final(self).relevant_max == old(self).relevant_max,
            final(self).clause_model == old(self).clause_model,
            final(self).last_solution == old(self).last_solution,
            final(self).no_more_solution == old(self).no_more_solution,
            final(self).spec_solved_state() <==> satisfiable,
    {
        let satisfiable = match self.solver.sat() {
            Tristate::True => true,
            Tristate::False => false,
            Tristate::Undef => false,
        };
        self.solved_state = satisfiable;
        satisfiable
    }

    /// Relies on logicng's `MiniSat::model`: the last solution, restricted to
    /// the given relevant variables. The last solve must have answered
    /// "satisfiable", otherwise the call panics.
    #[verifier::external_body]
    fn raw_model(&self) -> (model: Option<Model>)
        requires
            self.spec_solved_state(),
    {
        self.solver.model(Some(self.relevant_variables.as_slice()))
    }

    /// Wires a built solver to the factory its formulas were created with;
    /// `recorded_clauses` names the clauses the formulas stand for.
    fn new(
        formulas: &Vec<EncodedFormula>,
        factory: &Rc<FormulaFactory>,
        relevant_variables: &Vec<usize>,
        Ghost(recorded_clauses): Ghost<Seq<Seq<int>>>,
    ) -> (solver: LogicngSolver)
        ensures
            solver.clauses() == recorded_clauses,
    {
        let mut relevant: Vec<Variable> = Vec::new();
        let mut relevant_max: usize = 0;
        let mut i: usize = 0;
        while i < relevant_variables.len()
            invariant
                relevant_max <= i32::MAX,
            decreases relevant_variables@.len() - i,
        {
            let id = relevant_variables[i];
            if 1 <= id && id <= (i32::MAX as usize) {
                relevant.push(lng_variable(factory, id as i32));
                if id > relevant_max {
                    relevant_max = id;
                }
            }
            i += 1;
        }
        let mut solver = LogicngSolver {
            solver: Self::raw_new_minisat(),
            formula_factory: lng_share_factory(factory),
            relevant_variables: relevant,
            relevant_max,
            last_solution: Vec::new(),
            no_more_solution: false,
            solved_state: false,
            clause_model: Ghost(recorded_clauses),
        };
        solver.raw_add_all(formulas);
        solver
    }

    /// Refutes the last solution, i.e. don't propose the last solution again.
    /// Does nothing if no solution has been found yet.
    fn refute_previous_solution(&mut self)
        ensures
            !final(self).spec_solved_state() || old(self).last_solution@.len() == 0,
            final(self).relevant_max == old(self).relevant_max,
            final(self).no_more_solution == old(self).no_more_solution,
            old(self).last_solution@.len() == 0 ==> final(self).clauses() == old(self).clauses(),
            0 < old(self).last_solution@.len() <= i32::MAX ==> final(self).clauses() == old(
                self,
            ).clauses().push(refutation_of(old(self).last_solution@)),
    {
        if self.last_solution.is_empty() {
            return ;
        }
        let refutation = refutation_clause_for(&self.last_solution);
        let formula = clause_formula(&self.formula_factory, &refutation);
        self.raw_add(formula);
        self.clause_model = Ghost(self.clause_model@.push(lits_of(refutation@)));
        self.last_solution = Vec::new();
    }

    /// Translates a solver model into a vector of variable states, indexed by
    /// `variable - 1`: 1 for true, -1 for false, 0 for irrelevant variables.
    fn variable_states_from(&self, model: &Model) -> (states: Vec<i32>)
        ensures
            states@.len() == self.relevant_max,
            forall|i: int|
                0 <= i < states@.len() ==> #[trigger] states@[i] == 1 || states@[i] == -1
                    || states@[i] == 0,
    {
        let mut states: Vec<i32> = Vec::new();
        let mut i: usize = 0;
        while i < self.relevant_max
            invariant
                states@.len() == i,
                i <= self.relevant_max,
                forall|k: int|
                    0 <= k < states@.len() ==> #[trigger] states@[k] == 1 || states@[k] == -1
                        || states@[k] == 0,
            decreases self.relevant_max - i,
        {
            states.push(0);
            i += 1;
        }
        let positives = lng_model_pos(model);
        let mut p: usize = 0;
        while p < positives.len()
            invariant
                states@.len() == self.relevant_max,
                forall|k: int|
                    0 <= k < states@.len() ==> #[trigger] states@[k] == 1 || states@[k] == -1
                        || states@[k] == 0,
            decreases positives@.len() - p,
        {
            let name = lng_variable_name(&positives[p], &self.formula_factory);
            if let Some(id) = parse_decimal(name.as_str()) {
                if 1 <= id && id <= states.len() {
                    states.set(id - 1, 1);
                }
            }
            p += 1;
        }
        let negatives = lng_model_neg(model);
        let mut n: usize = 0;
        while n < negatives.len()
            invariant
                states@.len() == self.relevant_max,
                forall|k: int|
                    0 <= k < states@.len() ==> #[trigger] states@[k] == 1 || states@[k] == -1
                        || states@[k] == 0,
            decreases negatives@.len() - n,
        {
            let name = lng_variable_name(&negatives[n], &self.formula_factory);
            if let Some(id) = parse_decimal(name.as_str()) {
                if 1 <= id && id <= states.len() {
                    states.set(id - 1, -1);
                }
            }
            n += 1;
        }
        states
    }
}

/// Parses a non-empty string of decimal digits; anything else - or a value
/// beyond the machine's range - yields [None].
fn parse_decimal(digits: &str) -> (value: Option<usize>) {
    let length = digits.unicode_len();
    if length == 0 {
        return None;
    }
    let mut value: usize = 0;
    let mut i: usize = 0;
    while i < length
        invariant
            i <= length,
            length == digits@.len(),
        decreases length - i,
    {
        let character = digits.get_char(i);
        if character < '0' || character > '9' {
            return None;
        }
        let digit = (character as usize) - ('0' as usize);
        value = match value.checked_mul(10) {
            Some(shifted) => match shifted.checked_add(digit) {
                Some(next) => next,
                None => {
                    return None;
                },
            },
            None => {
                return None;
            },
        };
        i += 1;
    }
    Some(value)
}

impl Solver for LogicngSolver {
    closed spec fn exhausted(&self) -> bool {
        self.no_more_solution
    }

    fn next(&mut self) -> (model: Option<Vec<i32>>) {
        if self.no_more_solution {
            return None;
        }
        self.refute_previous_solution();
        if !self.raw_sat() {
            self.no_more_solution = true;
            return None;
        }
        let optional_model = self.raw_model();
        let model = match optional_model {
            Some(model) => model,
            None => {
                self.no_more_solution = true;
                return None;
            },
        };
        let solution = self.variable_states_from(&model);
        // Record a copy of the solution, to refute it on the next call.
        let mut recorded: Vec<i32> = Vec::new();
        let mut i: usize = 0;
        while i < solution.len()
            invariant
                recorded@ =~= solution@.take(i as int),
                i <= solution@.len(),
            decreases solution@.len() - i,
        {
            recorded.push(solution[i]);
            i += 1;
        }
        self.last_solution = recorded;
        Some(solution)
    }
}

} // verus!
