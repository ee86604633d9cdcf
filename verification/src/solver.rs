//! The interface of a SAT solver, as the crossword encoding needs it: a
//! write-only configurator taking clauses, and a producer of models.
//!
//! Every configurator is modelled by the sequence of clauses it received,
//! with the cardinality shorthands expanded by their default decomposition.
//! A backend may implement a shorthand natively; its implementation then
//! stands for a clause set with exactly the same satisfying assignments.

use vstd::prelude::*;

verus! {

/// The clause literals as mathematical integers.
pub open spec fn lits_of(literals: Seq<i32>) -> Seq<int> {
    literals.map_values(|l: i32| l as int)
}

/// The mathematical view of a stored clause list.
pub open spec fn clause_views(clauses: Seq<Seq<i32>>) -> Seq<Seq<int>> {
    clauses.map_values(|c: Seq<i32>| lits_of(c))
}

/// Whether every literal is a usable clause literal: nonzero, and negatable
/// without overflow.
pub open spec fn lits_ok(literals: Seq<i32>) -> bool {
    forall|i: int| 0 <= i < literals.len() ==> #[trigger] literals[i] != 0 && literals[i] != i32::MIN
}

/// The pairwise *at-most-one* decomposition of a set of literals: one binary
/// clause `[-l[i], -l[j]]` for every pair `i < j`, in lexicographic order.
pub open spec fn at_most_one_clauses(lits: Seq<int>) -> Seq<Seq<int>>
    decreases lits.len(),
{
    if lits.len() <= 1 {
        seq![]
    } else {
        Seq::new((lits.len() - 1) as nat, |j: int| seq![-lits[0], -lits[j + 1]])
            + at_most_one_clauses(lits.drop_first())
    }
}

/// The *exactly-one* decomposition: the disjunction of all literals, then the
/// pairwise at-most-one clauses.
pub open spec fn exactly_one_clauses(lits: Seq<int>) -> Seq<Seq<int>> {
    seq![lits] + at_most_one_clauses(lits)
}

/// The decomposition of `literal <=> (l[0] /\ l[1] /\ ... /\ l[n-1])`: one
/// binary clause `[-literal, l[i]]` per conjunct, then the closing clause
/// `[-l[0], ..., -l[n-1], literal]`.
pub open spec fn and_clauses(literal: int, conjunction: Seq<int>) -> Seq<Seq<int>> {
    Seq::new(conjunction.len(), |i: int| seq![-literal, conjunction[i]]) + seq![
        conjunction.map_values(|l: int| -l).push(literal),
    ]
}

/// The pairwise decomposition of an at-most-one over `n` literals holds
/// exactly `n*(n-1)/2` clauses, each of them binary.
pub proof fn lemma_at_most_one_clause_count(lits: Seq<int>)
    ensures
        2 * at_most_one_clauses(lits).len() == lits.len() * (lits.len() - 1),
        forall|k: int|
            0 <= k < at_most_one_clauses(lits).len() ==> #[trigger] at_most_one_clauses(
                lits,
            )[k].len() == 2,
    decreases lits.len(),
{
    if lits.len() <= 1 {
        assert(at_most_one_clauses(lits) == Seq::<Seq<int>>::empty());
        assert(lits.len() * (lits.len() - 1) == 0) by (nonlinear_arith)
            requires
                lits.len() <= 1,
        ;
    } else {
        lemma_at_most_one_clause_count(lits.drop_first());
        let n = lits.len() as int;
        assert(2 * (n - 1) + (n - 1) * (n - 2) == n * (n - 1)) by (nonlinear_arith);
        let head = Seq::new((lits.len() - 1) as nat, |j: int| seq![-lits[0], -lits[j + 1]]);
        let tail = at_most_one_clauses(lits.drop_first());
        assert(at_most_one_clauses(lits) == head + tail);
        assert(lits.drop_first().len() == n - 1);
        assert(2 * tail.len() == (n - 1) * (n - 2)) by {
            assert((n - 1) * (n - 2) == lits.drop_first().len() * (lits.drop_first().len() - 1))
                by (nonlinear_arith)
                requires
                    lits.drop_first().len() == n - 1,
            ;
        }
        assert(at_most_one_clauses(lits).len() == (n - 1) + tail.len());
        assert(2 * at_most_one_clauses(lits).len() == n * (n - 1));
        assert(n * (n - 1) == lits.len() * (lits.len() - 1)) by (nonlinear_arith)
            requires
                n == lits.len(),
        ;
        assert forall|k: int| 0 <= k < (head + tail).len() implies #[trigger] (head + tail)[k].len()
            == 2 by {
            if k < head.len() {
                assert((head + tail)[k] == head[k]);
            } else {
                assert((head + tail)[k] == tail[k - head.len()]);
            }
        }
    }
}

/// The largest of the given relevant variable ids that a literal can carry,
/// or 0 when there is none: ids beyond the positive `i32` range cannot name a
/// literal and do not count.
pub open spec fn capped_max(ids: Seq<usize>) -> int
    decreases ids.len(),
{
    if ids.len() == 0 {
        0
    } else {
        let rest = capped_max(ids.drop_last());
        if ids.last() <= i32::MAX && ids.last() > rest {
            ids.last() as int
        } else {
            rest
        }
    }
}

/// Unfolds the capped maximum of a sequence extended by one id.
pub proof fn lemma_capped_max_push(ids: Seq<usize>, id: usize)
    ensures
        capped_max(ids.push(id)) == (if id <= i32::MAX && id > capped_max(ids) {
            id as int
        } else {
            capped_max(ids)
        }),
        0 <= capped_max(ids) <= i32::MAX,
    decreases ids.len(),
{
    assert(ids.push(id).drop_last() =~= ids);
    assert(ids.push(id).last() == id);
    if ids.len() > 0 {
        lemma_capped_max_push(ids.drop_last(), ids.last());
        assert(ids.drop_last().push(ids.last()) =~= ids);
    }
}

/// Computes the clause refuting a recorded solution: the negation of every
/// assigned literal, entry `i` speaking for variable `i + 1`. Recorded
/// solutions never reach the literal range's end, so the cap is never hit.
pub(crate) fn refutation_clause_for(solution: &Vec<i32>) -> (clause: Vec<i32>)
    ensures
        solution@.len() <= i32::MAX ==> lits_of(clause@) == crate::semantics::refutation_of(
            solution@,
        ),
        lits_ok(clause@),
{
    let mut clause: Vec<i32> = Vec::new();
    let limit = if solution.len() < (i32::MAX as usize) {
        solution.len()
    } else {
        i32::MAX as usize
    };
    let mut i: usize = 0;
    while i < limit
        invariant
            i <= limit,
            limit <= solution@.len(),
            limit <= i32::MAX,
            lits_of(clause@) =~= crate::semantics::refutation_of(solution@.take(i as int)),
            lits_ok(clause@),
        decreases limit - i,
    {
        let value = solution[i];
        let variable = (i + 1) as i32;
        if value > 0 {
            clause.push(-variable);
        } else if value < 0 {
            clause.push(variable);
        }
        proof {
            assert(solution@.take(i as int + 1) =~= solution@.take(i as int).push(
                solution@[i as int],
            ));
            crate::semantics::lemma_refutation_of_push(
                solution@.take(i as int),
                solution@[i as int],
            );
            assert(lits_of(clause@) =~= crate::semantics::refutation_of(
                solution@.take(i as int + 1),
            ));
        }
        i += 1;
    }
    proof {
        if solution@.len() <= i32::MAX {
            assert(solution@.take(solution@.len() as int) =~= solution@);
        }
    }
    clause
}

/// Definition of a solver configurator.
///
/// The main function to implement is [add_clause](Self::add_clause). Other functions contain
/// default implementations which may be overridden, typically with a native cardinality
/// encoding, as long as the clause model is preserved.
pub trait SolverConfigurator: Sized {
    /// The clauses received so far, cardinality shorthands decomposed.
    spec fn clauses(&self) -> Seq<Seq<int>>;

    /// Gives a hint about the number of variables. May be implemented to optimize performance.
    ///
    /// Default implementation does nothing.
    fn allocate_variables(&mut self, variables_count: usize)
        ensures
            final(self).clauses() == old(self).clauses(),
    {
    }

    /// Indicates which variables are relevant for the problem.
    /// It is a hint for the solver, that can help the implementation avoid duplicate solutions.
    ///
    /// Default implementation does nothing.
    fn set_relevant_variables(&mut self, relevant_variables: Vec<usize>)
        ensures
            final(self).clauses() == old(self).clauses(),
    {
    }

    /// Adds the given literals as an *at-least-one* clause, i.e. a disjunction (= or).
    fn add_clause(&mut self, literals: &Vec<i32>)
        requires
            lits_ok(literals@),
        ensures
            final(self).clauses() == old(self).clauses().push(lits_of(literals@)),
    ;

    /// Adds the given literals as an *exactly-one* clause.
    ///
    /// An *exactly-one* clause is equivalent to an *at-least-one* and an *at-most-one* clause.
    ///
    /// Default implementation adds the corresponding clauses using [add_clause](Self::add_clause)
    /// and [add_at_most_one](Self::add_at_most_one).
    fn add_exactly_one(&mut self, literals: &Vec<i32>)
        requires
            lits_ok(literals@),
        ensures
            final(self).clauses() == old(self).clauses() + exactly_one_clauses(lits_of(literals@)),
    {
        self.add_clause(literals);
        self.add_at_most_one(literals);
        proof {
            assert(final(self).clauses() =~= old(self).clauses() + exactly_one_clauses(
                lits_of(literals@),
            ));
        }
    }

    /// Adds the given literals as an *at-most-one* clause.
    ///
    /// An *at-most-one* clause is equivalent to saying that no pair of literals is true, in
    /// other words to one *at-least-one* clause of the negated literals per pair.
    ///
    /// Default implementation adds the corresponding clauses using [add_clause](Self::add_clause).
    fn add_at_most_one(&mut self, literals: &Vec<i32>)
        requires
            lits_ok(literals@),
        ensures
            final(self).clauses() == old(self).clauses() + at_most_one_clauses(lits_of(literals@)),
    {
        let n = literals.len();
        let mut i: usize = 0;
        proof {
            assert(lits_of(literals@).skip(0) =~= lits_of(literals@));
        }
        while i < n
            invariant
                i <= n,
                n == literals@.len(),
                lits_ok(literals@),
                self.clauses() + at_most_one_clauses(lits_of(literals@).skip(i as int)) =~= old(
                    self,
                ).clauses() + at_most_one_clauses(lits_of(literals@)),
            decreases n - i,
        {
            let ghost lits_i = lits_of(literals@).skip(i as int);
            let mut j: usize = i + 1;
            while j < n
                invariant
                    i < j <= n || (i + 1 == j && j > n),
                    i < n,
                    n == literals@.len(),
                    lits_ok(literals@),
                    lits_i == lits_of(literals@).skip(i as int),
                    self.clauses() + Seq::new(
                        (n - j) as nat,
                        |m: int| seq![-lits_i[0], -lits_i[j - i + m]],
                    ) + at_most_one_clauses(lits_i.drop_first()) =~= old(self).clauses()
                        + at_most_one_clauses(lits_of(literals@)),
                decreases n - j,
            {
                let mut clause_buffer: Vec<i32> = Vec::new();
                clause_buffer.push(-literals[i]);
                clause_buffer.push(-literals[j]);
                self.add_clause(&clause_buffer);
                proof {
                    assert(lits_of(clause_buffer@) =~= seq![-lits_i[0], -lits_i[j - i]]);
                    assert(Seq::new((n - j) as nat, |m: int| seq![-lits_i[0], -lits_i[j - i + m]])
                        =~= seq![lits_of(clause_buffer@)] + Seq::new(
                        (n - j - 1) as nat,
                        |m: int| seq![-lits_i[0], -lits_i[j + 1 - i + m]],
                    ));
                }
                j += 1;
            }
            proof {
                if i + 1 < n {
                    assert(at_most_one_clauses(lits_i) == Seq::new(
                        (lits_i.len() - 1) as nat,
                        |m: int| seq![-lits_i[0], -lits_i[m + 1]],
                    ) + at_most_one_clauses(lits_i.drop_first()));
                    assert(Seq::new((n - i - 1) as nat, |m: int| seq![-lits_i[0], -lits_i[i + 1 - i + m]])
                        =~= Seq::new((lits_i.len() - 1) as nat, |m: int| seq![-lits_i[0], -lits_i[m + 1]]));
                } else {
                    assert(at_most_one_clauses(lits_i) == Seq::<Seq<int>>::empty());
                }
                assert(lits_i.drop_first() =~= lits_of(literals@).skip(i + 1));
            }
            i += 1;
        }
        proof {
            assert(at_most_one_clauses(lits_of(literals@).skip(n as int))
                == Seq::<Seq<int>>::empty());
            assert(self.clauses() =~= old(self).clauses() + at_most_one_clauses(
                lits_of(literals@),
            ));
        }
    }

    /// Adds clauses describing the equivalence between the given literal and the given
    /// conjunction (= and) of literals, i.e.
    /// *literal <=> conjunction\[0\] /\ conjunction\[1\] /\ ... /\ conjunction\[n\]*.
    ///
    /// Default implementation adds the corresponding clauses using [add_clause](Self::add_clause).
    fn add_and(&mut self, literal: i32, conjunction: &Vec<i32>)
        requires
            literal != 0,
            literal != i32::MIN,
            lits_ok(conjunction@),
        ensures
            final(self).clauses() == old(self).clauses() + and_clauses(
                literal as int,
                lits_of(conjunction@),
            ),
    {
        let n = conjunction.len();
        let ghost conj = lits_of(conjunction@);
        let mut last_clause: Vec<i32> = Vec::new();
        let mut i: usize = 0;
        while i < n
            invariant
                i <= n,
                n == conjunction@.len(),
                lits_ok(conjunction@),
                literal != 0 && literal != i32::MIN,
                conj == lits_of(conjunction@),
                last_clause@.len() == i,
                forall|m: int|
                    0 <= m < i ==> #[trigger] last_clause@[m] as int == -conj[m]
                        && last_clause@[m] != 0 && last_clause@[m] != i32::MIN,
                self.clauses() =~= old(self).clauses() + Seq::new(
                    i as nat,
                    |m: int| seq![-(literal as int), conj[m]],
                ),
            decreases n - i,
        {
            let conjunction_literal = conjunction[i];
            let mut clause_buffer: Vec<i32> = Vec::new();
            clause_buffer.push(-literal);
            clause_buffer.push(conjunction_literal);
            self.add_clause(&clause_buffer);
            last_clause.push(-conjunction_literal);
            proof {
                assert(lits_of(clause_buffer@) =~= seq![-(literal as int), conj[i as int]]);
                assert(Seq::new((i + 1) as nat, |m: int| seq![-(literal as int), conj[m]])
                    =~= Seq::new(i as nat, |m: int| seq![-(literal as int), conj[m]]).push(
                    lits_of(clause_buffer@),
                ));
            }
            i += 1;
        }
        last_clause.push(literal);
        proof {
            assert forall|m: int| 0 <= m < last_clause@.len() implies #[trigger] last_clause@[m]
                != 0 && last_clause@[m] != i32::MIN by {
                if m < n {
                    assert(last_clause@[m] as int == -conj[m]);
                }
            }
            assert(lits_of(last_clause@) =~= conj.map_values(|l: int| -l).push(literal as int));
        }
        self.add_clause(&last_clause);
        proof {
            assert(Seq::new(n as nat, |m: int| seq![-(literal as int), conj[m]])
                =~= Seq::new(conj.len(), |m: int| seq![-(literal as int), conj[m]]));
            assert(final(self).clauses() =~= old(self).clauses() + and_clauses(
                literal as int,
                conj,
            ));
        }
    }
}

/// Definition of a SAT solver.
///
/// It produces the models satisfying the problem, one model per call to
/// [next](Self::next). A model is a vector indexed by `variable - 1`, whose
/// values indicate the state of the corresponding variable: a positive value
/// indicates that the variable is true, a negative one that it is false.
///
/// An implementation *may* return only the state of the relevant variables
/// defined by [SolverConfigurator::set_relevant_variables] instead of all the
/// variables of the problem.
pub trait Solver: Sized {
    /// Whether the enumeration has ended: no later call returns a model.
    spec fn exhausted(&self) -> bool;

    /// Returns the next model satisfying the problem, or [None] when there is
    /// none left. Exhaustion latches: a solver that reports no more models
    /// stays exhausted, and every later call returns [None] again.
    fn next(&mut self) -> (model: Option<Vec<i32>>)
        ensures
            old(self).exhausted() ==> model is None && final(self).exhausted(),
            model is None ==> final(self).exhausted(),
    ;
}

/// Definition of a configurable [Solver]: a single object accepts the clauses
/// and produces the models.
pub trait ConfigurableSolver: SolverConfigurator + Solver {
}

/// Definition of a [Solver] builder: the builder accumulates the clauses and
/// produces the solver on request.
pub trait SolverBuilder: SolverConfigurator {
    /// The type of the solver built.
    type Built: Solver;

    /// Builds the solver.
    fn build(&self) -> (solver: Self::Built);
}

} // verus!
