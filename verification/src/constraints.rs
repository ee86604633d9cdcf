//! Where crossword problem constraints are built.
//!
//! The constraints are:
//!
//! - Each cell must contain one and only one letter from the alphabet or a block. See
//!   [Constraints::add_one_letter_or_block_per_cell_clauses_to].
//! - Each slot must contain one and only one word from the input word list. This is the tricky
//!   part, as there must be a correspondence between cell variables and slot variables. Basically,
//!   each slot variable - i.e. a representation of a (slot,word) pair - is equivalent to a
//!   conjunction (= and) of cell variables - i.e. (cell,letter) pairs. See
//!   [Constraints::add_one_word_per_slot_clauses_to].
//! - Prefilled cells must be kept as is. See
//!   [Constraints::add_input_grid_constraints_are_satisfied_clauses_to].
//!
//! Implementation note: Functions here add clauses to the solver passed as parameter, instead of
//! returning them, because the whole clause set does not scale in terms of memory.

use crate::alphabet;
use crate::grid;
use crate::grid::Grid;
use crate::slot::Slot;
use crate::solver::{and_clauses, exactly_one_clauses, lits_of, lits_ok, SolverConfigurator};
use crate::variables::{
    spec_cell_var, spec_slot_var, Variables, BLOCK_INDEX, CELL_VALUE_COUNT,
};
use vstd::prelude::*;

verus! {

/// Whether every character of every word is a letter of the alphabet.
pub open spec fn words_alphabetic(words: Seq<Seq<char>>) -> bool {
    forall|w: int, j: int|
        0 <= w < words.len() && 0 <= j < words[w].len() ==> alphabet::spec_contains(
            #[trigger] words[w][j],
        )
}

/// The group of the 27 variables of one cell: its 26 letters, then its block.
pub open spec fn cell_group(column_count: int, row: int, column: int) -> Seq<int> {
    Seq::new(CELL_VALUE_COUNT as nat, |v: int| spec_cell_var(column_count, row, column, v))
}

/// The clauses of the first constraint for the first `c` cells of a row: one
/// exactly-one decomposition per cell.
pub open spec fn c1_row(column_count: int, row: int, c: int) -> Seq<Seq<int>>
    decreases c,
{
    if c <= 0 {
        seq![]
    } else {
        c1_row(column_count, row, c - 1) + exactly_one_clauses(
            cell_group(column_count, row, c - 1),
        )
    }
}

/// The clauses of the first constraint for the first `r` rows, row-major.
pub open spec fn c1_rows(column_count: int, r: int) -> Seq<Seq<int>>
    decreases r,
{
    if r <= 0 {
        seq![]
    } else {
        c1_rows(column_count, r - 1) + c1_row(column_count, r - 1, column_count)
    }
}

/// The clauses of the first constraint - one letter or block per cell - of a
/// whole grid.
pub open spec fn c1_clauses(row_count: int, column_count: int) -> Seq<Seq<int>> {
    c1_rows(column_count, row_count)
}

/// The conjunction of cell literals witnessing a word written in a slot: the
/// `i`-th cell of the slot holds the `i`-th letter of the word.
pub open spec fn word_conjunction(column_count: int, slot: Slot, word: Seq<char>) -> Seq<int> {
    Seq::new(
        word.len(),
        |i: int|
            {
                let pos = slot.spec_position(i);
                spec_cell_var(
                    column_count,
                    pos.row as int,
                    pos.column as int,
                    alphabet::spec_index_of(word[i]),
                )
            },
    )
}

/// The equivalence clauses between a slot's variables and their cell
/// conjunctions, for the first `k` words; words of another length than the
/// slot's do not participate.
pub open spec fn slot_and_clauses(
    column_count: int,
    cell_count: int,
    word_count: int,
    slot: Slot,
    slot_index: int,
    words: Seq<Seq<char>>,
    k: int,
) -> Seq<Seq<int>>
    decreases k,
{
    if k <= 0 {
        seq![]
    } else {
        slot_and_clauses(column_count, cell_count, word_count, slot, slot_index, words, k - 1) + (
        if words[k - 1].len() == slot.spec_len() {
            and_clauses(
                spec_slot_var(cell_count, word_count, slot_index, k - 1),
                word_conjunction(column_count, slot, words[k - 1]),
            )
        } else {
            seq![]
        })
    }
}

/// The slot variables of the words that may fill a slot, among the first `k`
/// words: those whose length is the slot's.
pub open spec fn slot_word_lits(
    cell_count: int,
    word_count: int,
    slot: Slot,
    slot_index: int,
    words: Seq<Seq<char>>,
    k: int,
) -> Seq<int>
    decreases k,
{
    if k <= 0 {
        seq![]
    } else {
        slot_word_lits(cell_count, word_count, slot, slot_index, words, k - 1) + (if words[k
            - 1].len() == slot.spec_len() {
            seq![spec_slot_var(cell_count, word_count, slot_index, k - 1)]
        } else {
            seq![]
        })
    }
}

/// The clauses of the second constraint for one slot: the word equivalences,
/// then exactly one word for the slot.
pub open spec fn c2_slot_clauses(
    column_count: int,
    cell_count: int,
    word_count: int,
    slot: Slot,
    slot_index: int,
    words: Seq<Seq<char>>,
) -> Seq<Seq<int>> {
    slot_and_clauses(
        column_count,
        cell_count,
        word_count,
        slot,
        slot_index,
        words,
        words.len() as int,
    ) + exactly_one_clauses(
        slot_word_lits(cell_count, word_count, slot, slot_index, words, words.len() as int),
    )
}

/// The clauses of the second constraint for the first `s` slots, in slot order.
pub open spec fn c2_upto(
    column_count: int,
    cell_count: int,
    word_count: int,
    slots: Seq<Slot>,
    words: Seq<Seq<char>>,
    s: int,
) -> Seq<Seq<int>>
    decreases s,
{
    if s <= 0 {
        seq![]
    } else {
        c2_upto(column_count, cell_count, word_count, slots, words, s - 1) + c2_slot_clauses(
            column_count,
            cell_count,
            word_count,
            slots[s - 1],
            s - 1,
            words,
        )
    }
}

/// The clauses of the second constraint - exactly one word per slot, linked
/// to the cells - of a whole grid.
pub open spec fn c2_clauses(
    column_count: int,
    cell_count: int,
    word_count: int,
    slots: Seq<Slot>,
    words: Seq<Seq<char>>,
) -> Seq<Seq<int>> {
    c2_upto(column_count, cell_count, word_count, slots, words, slots.len() as int)
}

/// The unit literal of the third constraint for one cell: a free cell must
/// not hold a block, a blocked cell must, a prefilled cell must hold its
/// letter.
pub open spec fn c3_cell_lit(g: Seq<Seq<char>>, column_count: int, row: int, column: int) -> int {
    let value = g[row][column];
    if value == grid::EMPTY {
        -spec_cell_var(column_count, row, column, BLOCK_INDEX as int)
    } else if value == grid::BLOCK {
        spec_cell_var(column_count, row, column, BLOCK_INDEX as int)
    } else {
        spec_cell_var(column_count, row, column, alphabet::spec_index_of(value))
    }
}

/// The unit clauses of the third constraint for the first `c` cells of a row.
pub open spec fn c3_row(g: Seq<Seq<char>>, column_count: int, row: int, c: int) -> Seq<Seq<int>>
    decreases c,
{
    if c <= 0 {
        seq![]
    } else {
        c3_row(g, column_count, row, c - 1) + seq![seq![c3_cell_lit(g, column_count, row, c - 1)]]
    }
}

/// The unit clauses of the third constraint for the first `r` rows, row-major.
pub open spec fn c3_rows(g: Seq<Seq<char>>, column_count: int, r: int) -> Seq<Seq<int>>
    decreases r,
{
    if r <= 0 {
        seq![]
    } else {
        c3_rows(g, column_count, r - 1) + c3_row(g, column_count, r - 1, column_count)
    }
}

/// The clauses of the third constraint - the prefilled grid is preserved - of
/// a whole grid.
pub open spec fn c3_clauses(g: Seq<Seq<char>>, column_count: int) -> Seq<Seq<int>> {
    c3_rows(g, column_count, g.len() as int)
}

/// Where crossword problem constraints are built.
pub struct Constraints {
    grid: Grid,
    variables: Variables,
    words: Vec<String>,
}

impl Constraints {
    /// The grid the constraints are built from.
    pub closed spec fn spec_grid(&self) -> Grid {
        self.grid
    }

    /// The variable translation the constraints use.
    pub closed spec fn spec_variables(&self) -> Variables {
        self.variables
    }

    /// The word list, as sequences of characters.
    pub closed spec fn spec_words(&self) -> Seq<Seq<char>> {
        self.words.deep_view()
    }

    /// Well-formedness: the variables are derived from the same grid and the
    /// same number of words, and every word is made of alphabet letters.
    pub open spec fn wf(&self) -> bool {
        &&& self.spec_variables().wf()
        &&& self.spec_variables().spec_grid()@ == self.spec_grid()@
        &&& self.spec_variables().spec_word_count() == self.spec_words().len()
        &&& words_alphabetic(self.spec_words())
    }

    /// Constructs a new instance.
    pub fn new(grid: Grid, variables: Variables, words: &Vec<String>) -> (constraints: Self)
        requires
            variables.wf(),
            variables.spec_grid()@ == grid@,
            variables.spec_word_count() == words.deep_view().len(),
            words_alphabetic(words.deep_view()),
        ensures
            constraints.wf(),
            constraints.spec_grid()@ == grid@,
            constraints.spec_variables().spec_grid()@ == variables.spec_grid()@,
            constraints.spec_variables().spec_word_count() == variables.spec_word_count(),
            constraints.spec_words() == words.deep_view(),
    {
        let mut owned_words: Vec<String> = Vec::new();
        let mut i: usize = 0;
        while i < words.len()
            invariant
                i <= words@.len(),
                owned_words@.len() == i,
                forall|k: int| 0 <= k < i ==> #[trigger] owned_words@[k]@ == words@[k]@,
            decreases words@.len() - i,
        {
            owned_words.push(words[i].clone());
            i += 1;
        }
        proof {
            assert(owned_words.deep_view() =~= words.deep_view());
        }
        Constraints { grid, variables, words: owned_words }
    }

    /// Adds the clauses ensuring that each cell must contain exactly one letter from the
    /// alphabet - or a block - to the given solver.
    #[verifier::loop_isolation(false)]
    pub fn add_one_letter_or_block_per_cell_clauses_to<S: SolverConfigurator>(
        &self,
        solver: &mut S,
    )
        requires
            self.wf(),
        ensures
            final(solver).clauses() == old(solver).clauses() + c1_clauses(
                self.spec_grid().spec_row_count(),
                self.spec_grid().spec_column_count(),
            ),
    {
        let row_count = self.grid.row_count();
        let column_count = self.grid.column_count();
        let ghost cc = self.spec_grid().spec_column_count();
        let mut row: usize = 0;
        proof {
            assert(solver.clauses() =~= old(solver).clauses() + c1_rows(cc, 0));
        }
        while row < row_count
            invariant
                row <= row_count,
                solver.clauses() =~= old(solver).clauses() + c1_rows(cc, row as int),
            decreases row_count - row,
        {
            let mut column: usize = 0;
            while column < column_count
                invariant
                    row < row_count,
                    column <= column_count,
                    solver.clauses() =~= old(solver).clauses() + c1_rows(cc, row as int) + c1_row(
                        cc,
                        row as int,
                        column as int,
                    ),
                decreases column_count - column,
            {
                let mut literals_buffer: Vec<i32> = Vec::new();
                let mut value: usize = 0;
                while value < CELL_VALUE_COUNT
                    invariant
                        row < row_count,
                        column < column_count,
                        value <= CELL_VALUE_COUNT,
                        literals_buffer@.len() == value,
                        forall|m: int|
                            0 <= m < value ==> #[trigger] literals_buffer@[m] as int
                                == spec_cell_var(cc, row as int, column as int, m)
                                && 0 < literals_buffer@[m],
                    decreases CELL_VALUE_COUNT - value,
                {
                    let letter_variable = self.variables.representing_cell(row, column, value)
                        as i32;
                    literals_buffer.push(letter_variable);
                    value += 1;
                }
                proof {
                    assert(lits_ok(literals_buffer@));
                    assert(lits_of(literals_buffer@) =~= cell_group(cc, row as int, column as int));
                }
                solver.add_exactly_one(&literals_buffer);
                proof {
                    assert(c1_row(cc, row as int, column as int + 1) == c1_row(
                        cc,
                        row as int,
                        column as int,
                    ) + exactly_one_clauses(cell_group(cc, row as int, column as int)));
                    assert(solver.clauses() =~= old(solver).clauses() + c1_rows(cc, row as int)
                        + c1_row(cc, row as int, column as int + 1));
                }
                column += 1;
            }
            proof {
                assert(solver.clauses() =~= old(solver).clauses() + c1_rows(cc, row as int + 1));
            }
            row += 1;
        }
    }
    /// Adds the clauses ensuring that each slot must contain exactly one word from the word list
    /// to the given solver.
    #[verifier::loop_isolation(false)]
    pub fn add_one_word_per_slot_clauses_to<S: SolverConfigurator>(&self, solver: &mut S)
        requires
            self.wf(),
        ensures
            final(solver).clauses() == old(solver).clauses() + c2_clauses(
                self.spec_grid().spec_column_count(),
                self.spec_variables().spec_cell_count(),
                self.spec_words().len() as int,
                self.spec_grid().slots_spec(),
                self.spec_words(),
            ),
    {
        let ghost cc = self.spec_grid().spec_column_count();
        let ghost cell_count = self.spec_variables().spec_cell_count();
        let ghost word_count = self.spec_words().len() as int;
        let ghost all_slots = self.spec_grid().slots_spec();
        let ghost words = self.spec_words();
        proof {
            self.grid.lemma_slots_wf();
        }
        let slots = self.grid.slots();
        let word_total = self.words.len();
        let mut slot_index: usize = 0;
        proof {
            assert(solver.clauses() =~= old(solver).clauses() + c2_upto(
                cc,
                cell_count,
                word_count,
                all_slots,
                words,
                0,
            ));
        }
        while slot_index < slots.len()
            invariant
                slot_index <= all_slots.len(),
                slots@ == all_slots,
                solver.clauses() =~= old(solver).clauses() + c2_upto(
                    cc,
                    cell_count,
                    word_count,
                    all_slots,
                    words,
                    slot_index as int,
                ),
            decreases all_slots.len() - slot_index,
        {
            let slot = slots[slot_index];
            let slot_length = slot.len();
            let mut slot_literals_buffer: Vec<i32> = Vec::new();
            let mut word_index: usize = 0;
            while word_index < word_total
                invariant
                    word_index <= word_count,
                    slot_index < all_slots.len(),
                    slot == all_slots[slot_index as int],
                    lits_of(slot_literals_buffer@) =~= slot_word_lits(
                        cell_count,
                        word_count,
                        slot,
                        slot_index as int,
                        words,
                        word_index as int,
                    ),
                    lits_ok(slot_literals_buffer@),
                    solver.clauses() =~= old(solver).clauses() + c2_upto(
                        cc,
                        cell_count,
                        word_count,
                        all_slots,
                        words,
                        slot_index as int,
                    ) + slot_and_clauses(
                        cc,
                        cell_count,
                        word_count,
                        slot,
                        slot_index as int,
                        words,
                        word_index as int,
                    ),
                decreases word_count - word_index,
            {
                let word = &self.words[word_index];
                proof {
                    assert(words[word_index as int] == self.words@[word_index as int]@);
                }
                if word.as_str().unicode_len() == slot_length {
                    let slot_literal = self.variables.representing_slot(slot_index, word_index)
                        as i32;
                    let mut cell_literals_buffer: Vec<i32> = Vec::new();
                    self.fill_cell_literals_conjunction(&mut cell_literals_buffer, &slot, word.as_str());
                    proof {
                        assert(lits_of(slot_literals_buffer@.push(slot_literal)) =~= lits_of(
                            slot_literals_buffer@,
                        ).push(slot_literal as int));
                    }
                    slot_literals_buffer.push(slot_literal);
                    solver.add_and(slot_literal, &cell_literals_buffer);
                    proof {
                        assert(slot_word_lits(
                            cell_count,
                            word_count,
                            slot,
                            slot_index as int,
                            words,
                            word_index as int + 1,
                        ) =~= slot_word_lits(
                            cell_count,
                            word_count,
                            slot,
                            slot_index as int,
                            words,
                            word_index as int,
                        ).push(slot_literal as int));
                        assert(solver.clauses() =~= old(solver).clauses() + c2_upto(
                            cc,
                            cell_count,
                            word_count,
                            all_slots,
                            words,
                            slot_index as int,
                        ) + slot_and_clauses(
                            cc,
                            cell_count,
                            word_count,
                            slot,
                            slot_index as int,
                            words,
                            word_index as int + 1,
                        ));
                    }
                }  // else skip this word since it obviously doesn't match the slot
                word_index += 1;
            }
            solver.add_exactly_one(&slot_literals_buffer);
            proof {
                assert(c2_upto(cc, cell_count, word_count, all_slots, words, slot_index as int + 1)
                    =~= c2_upto(cc, cell_count, word_count, all_slots, words, slot_index as int)
                    + c2_slot_clauses(cc, cell_count, word_count, slot, slot_index as int, words));
                assert(solver.clauses() =~= old(solver).clauses() + c2_upto(
                    cc,
                    cell_count,
                    word_count,
                    all_slots,
                    words,
                    slot_index as int + 1,
                ));
            }
            slot_index += 1;
        }
    }

    /// Adds the clauses ensuring that each prefilled letter/block must be preserved to the given
    /// solver.
    #[verifier::loop_isolation(false)]
    pub fn add_input_grid_constraints_are_satisfied_clauses_to<S: SolverConfigurator>(
        &self,
        solver: &mut S,
    )
        requires
            self.wf(),
        ensures
            final(solver).clauses() == old(solver).clauses() + c3_clauses(
                self.spec_grid()@,
                self.spec_grid().spec_column_count(),
            ),
    {
        let row_count = self.grid.row_count();
        let column_count = self.grid.column_count();
        let ghost g = self.spec_grid()@;
        let ghost cc = self.spec_grid().spec_column_count();
        let mut row: usize = 0;
        proof {
            assert(solver.clauses() =~= old(solver).clauses() + c3_rows(g, cc, 0));
        }
        while row < row_count
            invariant
                row <= row_count,
                solver.clauses() =~= old(solver).clauses() + c3_rows(g, cc, row as int),
            decreases row_count - row,
        {
            let mut column: usize = 0;
            while column < column_count
                invariant
                    row < row_count,
                    column <= column_count,
                    solver.clauses() =~= old(solver).clauses() + c3_rows(g, cc, row as int)
                        + c3_row(g, cc, row as int, column as int),
                decreases column_count - column,
            {
                let prefilled_letter = self.grid.letter_at(row, column);
                let literal: i32 = if prefilled_letter == grid::EMPTY {
                    // Disallow solver to create a block
                    -(self.variables.representing_cell(row, column, BLOCK_INDEX) as i32)
                } else if prefilled_letter == grid::BLOCK {
                    self.variables.representing_cell(row, column, BLOCK_INDEX) as i32
                } else {
                    let letter_index = match alphabet::index_of(prefilled_letter) {
                        Some(index) => index,
                        None => {
                            proof {
                                assert(grid::row_ok(g[row as int], g[0].len() as int));
                                assert(false);
                            }
                            0
                        },
                    };
                    self.variables.representing_cell(row, column, letter_index) as i32
                };
                proof {
                    assert(grid::row_ok(g[row as int], g[0].len() as int));
                    assert(literal as int == c3_cell_lit(g, cc, row as int, column as int));
                }
                let mut literals_buffer: Vec<i32> = Vec::new();
                literals_buffer.push(literal);
                proof {
                    assert(lits_ok(literals_buffer@));
                    assert(lits_of(literals_buffer@) =~= seq![
                        c3_cell_lit(g, cc, row as int, column as int),
                    ]);
                }
                solver.add_clause(&literals_buffer);
                proof {
                    assert(c3_row(g, cc, row as int, column as int + 1) == c3_row(
                        g,
                        cc,
                        row as int,
                        column as int,
                    ) + seq![seq![c3_cell_lit(g, cc, row as int, column as int)]]);
                    assert(solver.clauses() =~= old(solver).clauses() + c3_rows(g, cc, row as int)
                        + c3_row(g, cc, row as int, column as int + 1));
                }
                column += 1;
            }
            proof {
                assert(solver.clauses() =~= old(solver).clauses() + c3_rows(g, cc, row as int + 1));
            }
            row += 1;
        }
    }

    /// Fills the given vector with the cell literals whose conjunction (= and) is equivalent to
    /// the slot variable of the given slot and word.
    ///
    /// The word must be made of alphabet letters only and be as long as the slot.
    #[verifier::loop_isolation(false)]
    pub fn fill_cell_literals_conjunction(
        &self,
        cell_literals: &mut Vec<i32>,
        slot: &Slot,
        word: &str,
    )
        requires
            self.wf(),
            slot.wf(),
            (if slot.is_down {
                slot.end <= self.spec_grid().spec_row_count() && slot.offset
                    < self.spec_grid().spec_column_count()
            } else {
                slot.end <= self.spec_grid().spec_column_count() && slot.offset
                    < self.spec_grid().spec_row_count()
            }),
            word@.len() == slot.spec_len(),
            forall|j: int| 0 <= j < word@.len() ==> alphabet::spec_contains(#[trigger] word@[j]),
        ensures
            final(cell_literals)@.len() == old(cell_literals)@.len() + word@.len(),
            lits_of(final(cell_literals)@) == lits_of(old(cell_literals)@) + word_conjunction(
                self.spec_grid().spec_column_count(),
                *slot,
                word@,
            ),
            lits_ok(old(cell_literals)@) ==> lits_ok(final(cell_literals)@),
    {
        let ghost cc = self.spec_grid().spec_column_count();
        let slot_positions = slot.positions();
        let length = word.unicode_len();
        let mut i: usize = 0;
        while i < length
            invariant
                i <= length,
                length == word@.len(),
                cell_literals@.len() == old(cell_literals)@.len() + i,
                lits_of(cell_literals@) =~= lits_of(old(cell_literals)@) + word_conjunction(
                    cc,
                    *slot,
                    word@,
                ).take(i as int),
                forall|m: int|
                    old(cell_literals)@.len() <= m < cell_literals@.len()
                        ==> 0 < #[trigger] cell_literals@[m],
                forall|m: int|
                    0 <= m < old(cell_literals)@.len() ==> #[trigger] cell_literals@[m] == old(
                        cell_literals,
                    )@[m],
            decreases length - i,
        {
            let slot_pos = slot_positions[i];
            proof {
                assert(slot_pos == slot.spec_position(i as int));
                assert(slot.start + i < slot.end);
            }
            let letter = word.get_char(i);
            let letter_index = match alphabet::index_of(letter) {
                Some(index) => index,
                None => {
                    proof {
                        assert(false);
                    }
                    0
                },
            };
            let cell_var = self.variables.representing_cell(
                slot_pos.row(),
                slot_pos.column(),
                letter_index,
            );
            proof {
                assert(word_conjunction(cc, *slot, word@)[i as int] == spec_cell_var(
                    cc,
                    slot.spec_position(i as int).row as int,
                    slot.spec_position(i as int).column as int,
                    alphabet::spec_index_of(word@[i as int]),
                ));
                assert(letter == word@[i as int]);
                assert(letter_index as int == alphabet::spec_index_of(word@[i as int]));
                assert(cell_var as int == word_conjunction(cc, *slot, word@)[i as int]);
                assert((cell_var as i32) as int == cell_var as int);
            }
            let ghost previous = cell_literals@;
            cell_literals.push(cell_var as i32);
            proof {
                assert(cell_literals@ == previous.push(cell_var as i32));
                assert(lits_of(previous.push(cell_var as i32)) =~= lits_of(previous).push(
                    cell_var as int,
                ));
                assert(word_conjunction(cc, *slot, word@).take(i as int + 1)
                    =~= word_conjunction(cc, *slot, word@).take(i as int).push(
                    word_conjunction(cc, *slot, word@)[i as int],
                ));
                assert(lits_of(cell_literals@) =~= lits_of(old(cell_literals)@)
                    + word_conjunction(cc, *slot, word@).take(i as int + 1));
            }
            i += 1;
        }
        proof {
            assert(word_conjunction(cc, *slot, word@).take(word@.len() as int) =~= word_conjunction(
                cc,
                *slot,
                word@,
            ));
            assert(lits_of(cell_literals@) =~= lits_of(old(cell_literals)@) + word_conjunction(
                cc,
                *slot,
                word@,
            ));
            if lits_ok(old(cell_literals)@) {
                assert forall|m: int| 0 <= m < cell_literals@.len() implies #[trigger] cell_literals@[m]
                    != 0 && cell_literals@[m] != i32::MIN by {
                    if m < old(cell_literals)@.len() {
                        assert(cell_literals@[m] == old(cell_literals)@[m]);
                    }
                }
            }
        }
    }
}

} // verus!
