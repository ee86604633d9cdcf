//! Translation of problem data from/to integer SAT variables.

use crate::alphabet;
use crate::alphabet::LETTER_COUNT;
use crate::grid;
use crate::grid::Grid;
use crate::text;
use vstd::prelude::*;

verus! {

/// The number of values that a cell of a solved grid can take.
pub const CELL_VALUE_COUNT: usize = LETTER_COUNT + 1;  // the 26 letters, plus the block

/// The numerical representation of a block (the value of a shaded cell).
pub const BLOCK_INDEX: usize = LETTER_COUNT;

/// The variable standing for "the cell at (`row`,`column`) holds `value`".
/// Variables are strictly positive; cell variables come first, ordered by
/// row, then column, then value.
pub open spec fn spec_cell_var(column_count: int, row: int, column: int, value: int) -> int {
    row * column_count * (CELL_VALUE_COUNT as int) + column * (CELL_VALUE_COUNT as int) + value + 1
}

/// The 0-based position in a model of the first variable of the cell at
/// (`row`,`column`).
pub open spec fn cell_base(column_count: int, row: int, column: int) -> int {
    row * column_count * (CELL_VALUE_COUNT as int) + column * (CELL_VALUE_COUNT as int)
}

/// The variable standing for "slot number `slot_index` holds word number
/// `word_index`". Slot variables come right after the cell variables.
pub open spec fn spec_slot_var(
    cell_count: int,
    word_count: int,
    slot_index: int,
    word_index: int,
) -> int {
    cell_count + slot_index * word_count + word_index + 1
}

/// Every cell variable of a cell inside the grid lies in `1 ..= R*C*27`.
pub proof fn lemma_cell_var_bounds(
    column_count: int,
    row_count: int,
    row: int,
    column: int,
    value: int,
)
    requires
        0 <= row < row_count,
        0 <= column < column_count,
        0 <= value < CELL_VALUE_COUNT,
    ensures
        1 <= spec_cell_var(column_count, row, column, value) <= row_count * column_count * (
        CELL_VALUE_COUNT as int),
        cell_base(column_count, row, column) + CELL_VALUE_COUNT <= row_count * column_count * (
        CELL_VALUE_COUNT as int),
{
    assert(row * column_count * 27 + column * 27 + value + 1 >= 1) by (nonlinear_arith)
        requires
            0 <= row && 0 <= column && 0 <= value && 0 < column_count,
    ;
    assert(row * column_count * 27 + column * 27 + 27 <= row_count * column_count * 27)
        by (nonlinear_arith)
        requires
            0 <= row && row < row_count && 0 <= column && column < column_count,
    ;
}

/// LAW: cell variables are injective: distinct (row,column,value) triples get
/// distinct ids. Together with [lemma_cell_var_bounds],
/// [lemma_cell_var_dense_at] and [lemma_slot_var_dense_at], the two variable
/// ranges are disjoint and fill `1 ..= count` without a gap.
pub proof fn lemma_cell_var_injective(row_count: int, column_count: int)
    requires
        0 <= row_count,
        0 <= column_count,
    ensures
        forall|r1: int, c1: int, v1: int, r2: int, c2: int, v2: int|
            0 <= r1 < row_count && 0 <= c1 < column_count && 0 <= v1 < CELL_VALUE_COUNT && 0 <= r2
                < row_count && 0 <= c2 < column_count && 0 <= v2 < CELL_VALUE_COUNT
                && #[trigger] spec_cell_var(column_count, r1, c1, v1) == #[trigger] spec_cell_var(
                column_count,
                r2,
                c2,
                v2,
            ) ==> r1 == r2 && c1 == c2 && v1 == v2,
{
    assert forall|r1: int, c1: int, v1: int, r2: int, c2: int, v2: int|
        0 <= r1 < row_count && 0 <= c1 < column_count && 0 <= v1 < CELL_VALUE_COUNT && 0 <= r2
            < row_count && 0 <= c2 < column_count && 0 <= v2 < CELL_VALUE_COUNT
            && #[trigger] spec_cell_var(column_count, r1, c1, v1) == #[trigger] spec_cell_var(
            column_count,
            r2,
            c2,
            v2,
        ) implies r1 == r2 && c1 == c2 && v1 == v2 by {
        let x = spec_cell_var(column_count, r1, c1, v1) - 1;
        assert(x == (r1 * column_count + c1) * 27 + v1 && x == (r2 * column_count + c2) * 27 + v2)
            by (nonlinear_arith)
            requires
                spec_cell_var(column_count, r1, c1, v1) == spec_cell_var(column_count, r2, c2, v2),
                x == spec_cell_var(column_count, r1, c1, v1) - 1,
        ;
        vstd::arithmetic::div_mod::lemma_fundamental_div_mod_converse(
            x,
            27,
            r1 * column_count + c1,
            v1,
        );
        vstd::arithmetic::div_mod::lemma_fundamental_div_mod_converse(
            x,
            27,
            r2 * column_count + c2,
            v2,
        );
        vstd::arithmetic::div_mod::lemma_fundamental_div_mod_converse(
            r1 * column_count + c1,
            column_count,
            r1,
            c1,
        );
        vstd::arithmetic::div_mod::lemma_fundamental_div_mod_converse(
            r2 * column_count + c2,
            column_count,
            r2,
            c2,
        );
    }
}

/// LAW: the cell variables are dense: every id in `1 ..= R*C*27` stands for
/// one (row,column,value) triple.
pub proof fn lemma_cell_var_dense_at(row_count: int, column_count: int, id: int)
    requires
        0 <= row_count,
        0 <= column_count,
        1 <= id <= row_count * column_count * (CELL_VALUE_COUNT as int),
    ensures
        exists|r: int, c: int, v: int|
            0 <= r < row_count && 0 <= c < column_count && 0 <= v < CELL_VALUE_COUNT && id
                == #[trigger] spec_cell_var(column_count, r, c, v),
{
    if row_count == 0 || column_count == 0 {
        assert(row_count * column_count * 27 == 0) by (nonlinear_arith)
            requires
                row_count == 0 || column_count == 0,
        ;
    } else {
        let x = id - 1;
        let v = x % 27;
        let q = x / 27;
        let c = q % column_count;
        let r = q / column_count;
        vstd::arithmetic::div_mod::lemma_fundamental_div_mod(x, 27);
        vstd::arithmetic::div_mod::lemma_mod_pos_bound(x, 27);
        assert(x < row_count * column_count * 27) by (nonlinear_arith)
            requires
                id <= row_count * column_count * 27,
                x == id - 1,
        ;
        assert(x < 27 * (row_count * column_count)) by (nonlinear_arith)
            requires
                x < row_count * column_count * 27,
        ;
        vstd::arithmetic::div_mod::lemma_multiply_divide_lt(x, 27, row_count * column_count);
        assert(q < row_count * column_count);
        assert(q >= 0) by (nonlinear_arith)
            requires
                x == 27 * q + v,
                0 <= v < 27,
                x >= 0,
        ;
        vstd::arithmetic::div_mod::lemma_fundamental_div_mod(q, column_count);
        vstd::arithmetic::div_mod::lemma_mod_pos_bound(q, column_count);
        assert(q < column_count * row_count) by (nonlinear_arith)
            requires
                q < row_count * column_count,
        ;
        vstd::arithmetic::div_mod::lemma_multiply_divide_lt(q, column_count, row_count);
        assert(r >= 0) by (nonlinear_arith)
            requires
                q == column_count * r + c,
                0 <= c < column_count,
                q >= 0,
        ;
        assert(id == spec_cell_var(column_count, r, c, v)) by (nonlinear_arith)
            requires
                x == 27 * q + v,
                q == column_count * r + c,
                x == id - 1,
        ;
        assert(0 <= r < row_count && 0 <= c < column_count && 0 <= v < CELL_VALUE_COUNT && id
            == spec_cell_var(column_count, r, c, v));
    }
}

/// LAW: slot variables are injective: distinct (slot,word) pairs get distinct
/// ids.
pub proof fn lemma_slot_var_injective(cell_count: int, slot_count: int, word_count: int)
    requires
        0 <= cell_count,
        0 <= slot_count,
        0 <= word_count,
    ensures
        forall|s1: int, w1: int, s2: int, w2: int|
            0 <= s1 < slot_count && 0 <= w1 < word_count && 0 <= s2 < slot_count && 0 <= w2
                < word_count && #[trigger] spec_slot_var(cell_count, word_count, s1, w1)
                == #[trigger] spec_slot_var(cell_count, word_count, s2, w2) ==> s1 == s2 && w1
                == w2,
{
    assert forall|s1: int, w1: int, s2: int, w2: int|
        0 <= s1 < slot_count && 0 <= w1 < word_count && 0 <= s2 < slot_count && 0 <= w2
            < word_count && #[trigger] spec_slot_var(cell_count, word_count, s1, w1)
            == #[trigger] spec_slot_var(cell_count, word_count, s2, w2) implies s1 == s2 && w1
        == w2 by {
        let x = spec_slot_var(cell_count, word_count, s1, w1) - 1 - cell_count;
        vstd::arithmetic::div_mod::lemma_fundamental_div_mod_converse(x, word_count, s1, w1);
        vstd::arithmetic::div_mod::lemma_fundamental_div_mod_converse(x, word_count, s2, w2);
    }
}

/// LAW: the slot variables are dense: every id in the band right after the
/// cell variables stands for one (slot,word) pair.
pub proof fn lemma_slot_var_dense_at(cell_count: int, slot_count: int, word_count: int, id: int)
    requires
        0 <= cell_count,
        0 <= slot_count,
        0 <= word_count,
        cell_count < id <= cell_count + slot_count * word_count,
    ensures
        exists|s: int, w: int|
            0 <= s < slot_count && 0 <= w < word_count && id == #[trigger] spec_slot_var(
                cell_count,
                word_count,
                s,
                w,
            ),
{
    if word_count == 0 || slot_count == 0 {
        assert(slot_count * word_count == 0) by (nonlinear_arith)
            requires
                word_count == 0 || slot_count == 0,
        ;
    } else {
        let x = id - 1 - cell_count;
        let w = x % word_count;
        let s = x / word_count;
        vstd::arithmetic::div_mod::lemma_fundamental_div_mod(x, word_count);
        vstd::arithmetic::div_mod::lemma_mod_pos_bound(x, word_count);
        assert(x < word_count * slot_count) by (nonlinear_arith)
            requires
                x < slot_count * word_count,
        ;
        vstd::arithmetic::div_mod::lemma_multiply_divide_lt(x, word_count, slot_count);
        assert(s >= 0) by (nonlinear_arith)
            requires
                x == word_count * s + w,
                0 <= w < word_count,
                x >= 0,
        ;
        assert(id == spec_slot_var(cell_count, word_count, s, w)) by (nonlinear_arith)
            requires
                x == word_count * s + w,
                x == id - 1 - cell_count,
        ;
        assert(0 <= s < slot_count && 0 <= w < word_count && id == spec_slot_var(
            cell_count,
            word_count,
            s,
            w,
        ));
    }
}

/// The index of the first value at or after `v` whose variable is positive in
/// the model, for the cell whose variables begin at `base`; 27 if none is.
pub open spec fn first_positive(model: Seq<i32>, base: int, v: int) -> int
    decreases CELL_VALUE_COUNT - v,
{
    if v < 0 || v >= CELL_VALUE_COUNT {
        CELL_VALUE_COUNT as int
    } else if model[base + v] > 0 {
        v
    } else {
        first_positive(model, base, v + 1)
    }
}

/// The character decoded from a model for the cell at (`row`,`column`): the
/// letter of the first positive value, or the block character.
pub open spec fn decoded_cell_char(model: Seq<i32>, column_count: int, row: int, column: int)
    -> char {
    let v = first_positive(model, cell_base(column_count, row, column), 0);
    if v == BLOCK_INDEX {
        grid::BLOCK
    } else {
        alphabet::spec_letter_at(v)
    }
}

/// The row of characters decoded from a model.
pub open spec fn decoded_row(model: Seq<i32>, column_count: int, row: int) -> Seq<char> {
    Seq::new(column_count as nat, |c: int| decoded_cell_char(model, column_count, row, c))
}

/// The first `r` decoded rows, joined by newlines.
pub open spec fn decoded_rows(model: Seq<i32>, column_count: int, r: int) -> Seq<char>
    decreases r,
{
    if r <= 0 {
        seq![]
    } else {
        decoded_rows(model, column_count, r - 1) + (if r - 1 > 0 {
            seq!['\n']
        } else {
            seq![]
        }) + decoded_row(model, column_count, r - 1)
    }
}

/// The grid text decoded from a model: `R` rows of `C` characters joined by
/// newlines, without a trailing newline.
pub open spec fn decoded_grid(model: Seq<i32>, row_count: int, column_count: int) -> Seq<char> {
    decoded_rows(model, column_count, row_count)
}

/// Whether a model is long enough for the grid's cell variables and assigns
/// at least one positive value to every cell.
pub open spec fn model_covers(model: Seq<i32>, row_count: int, column_count: int) -> bool {
    &&& model.len() >= row_count * column_count * (CELL_VALUE_COUNT as int)
    &&& forall|r: int, c: int|
        0 <= r < row_count && 0 <= c < column_count ==> first_positive(
            model,
            #[trigger] cell_base(column_count, r, c),
            0,
        ) < CELL_VALUE_COUNT
}

/// Where translation of problem data from/to integer variables occurs.
///
/// There are two kinds of variables:
///
/// - Cell variables: For each pair (cell,value) is associated a variable. See
///   [Self::representing_cell()] for the translation.
/// - Slot variables: For each pair (slot,word) is associated a variable. They are placed
///   "after" the cell variables in the model. See [Self::representing_slot] for the translation.
pub struct Variables {
    /// The crossword grid
    grid: Grid,
    /// The number of words in the dictionary
    word_count: usize,
}

impl Clone for Variables {
    /// Clones the translation; the copy is derived from the very same grid
    /// view and word count.
    fn clone(&self) -> (result: Self)
        ensures
            result.spec_grid()@ == self.spec_grid()@,
            result.spec_word_count() == self.spec_word_count(),
    {
        Variables { grid: self.grid.clone(), word_count: self.word_count }
    }
}

impl Variables {
    /// The grid the variables are derived from.
    pub closed spec fn spec_grid(&self) -> Grid {
        self.grid
    }

    /// The number of words in the dictionary.
    pub closed spec fn spec_word_count(&self) -> int {
        self.word_count as int
    }

    /// The number of variables representing cells.
    pub open spec fn spec_cell_count(&self) -> int {
        self.spec_grid().spec_row_count() * self.spec_grid().spec_column_count() * (
        CELL_VALUE_COUNT as int)
    }

    /// The number of variables representing slots.
    pub open spec fn spec_slot_count(&self) -> int {
        self.spec_grid().slots_spec().len() * self.spec_word_count()
    }

    /// The number of variables.
    pub open spec fn spec_count(&self) -> int {
        self.spec_cell_count() + self.spec_slot_count()
    }

    /// Well-formedness: the grid is valid and the whole variable space fits
    /// in the positive literals of an `i32`.
    pub open spec fn wf(&self) -> bool {
        &&& self.spec_grid().wf()
        &&& self.spec_grid().spec_row_count() <= usize::MAX
        &&& self.spec_grid().spec_column_count() <= usize::MAX
        &&& self.spec_count() <= i32::MAX
    }

    /// Creates a new instance.
    pub fn new(grid: Grid, word_count: usize) -> (variables: Self)
        requires
            grid.wf(),
            grid.spec_row_count() <= usize::MAX,
            grid.spec_column_count() <= usize::MAX,
            grid.spec_row_count() * grid.spec_column_count() * (CELL_VALUE_COUNT as int)
                + grid.slots_spec().len() * word_count <= i32::MAX,
        ensures
            variables.wf(),
            variables.spec_grid() == grid,
            variables.spec_word_count() == word_count as int,
    {
        Variables { grid, word_count }
    }

    /// Returns the variable associated to the given value at the given cell.
    ///
    /// Cell variables are put first in the model: variable 1 stands for 'A'
    /// at (0,0), variable 2 for 'B' at (0,0), ..., variable 27 for a block at
    /// (0,0), variable 28 for 'A' at (0,1), and so on, row by row.
    pub fn representing_cell(&self, row: usize, column: usize, value: usize) -> (variable: usize)
        requires
            self.wf(),
            row < self.spec_grid().spec_row_count(),
            column < self.spec_grid().spec_column_count(),
            value < CELL_VALUE_COUNT,
        ensures
            variable as int == spec_cell_var(
                self.spec_grid().spec_column_count(),
                row as int,
                column as int,
                value as int,
            ),
            1 <= variable as int <= self.spec_cell_count(),
            variable <= i32::MAX,
    {
        proof {
            lemma_cell_var_bounds(
                self.spec_grid().spec_column_count(),
                self.spec_grid().spec_row_count(),
                row as int,
                column as int,
                value as int,
            );
            lemma_slot_part_non_negative(self.spec_grid().slots_spec().len() as int, self.word_count as int);
        }
        let column_count = self.grid.column_count();
        row * column_count * CELL_VALUE_COUNT + column * CELL_VALUE_COUNT + value + 1
        // variable must be strictly positive
    }

    /// Returns the variable associated to the given value at the given cell.
    pub fn cell(&self, row: usize, column: usize, value: usize) -> (variable: usize)
        requires
            self.wf(),
            row < self.spec_grid().spec_row_count(),
            column < self.spec_grid().spec_column_count(),
            value < CELL_VALUE_COUNT,
        ensures
            variable as int == spec_cell_var(
                self.spec_grid().spec_column_count(),
                row as int,
                column as int,
                value as int,
            ),
            1 <= variable as int <= self.spec_cell_count(),
            variable <= i32::MAX,
    {
        self.representing_cell(row, column, value)
    }

    /// Returns all the variables representing cells, in increasing order.
    #[verifier::loop_isolation(false)]
    pub fn representing_cells(&self) -> (cells: Vec<usize>)
        requires
            self.wf(),
        ensures
            cells@.len() == self.spec_cell_count(),
            forall|i: int| 0 <= i < cells@.len() ==> #[trigger] cells@[i] as int == i + 1,
    {
        let count = self.representing_cell_count();
        proof {
            lemma_slot_part_non_negative(
                self.spec_grid().slots_spec().len() as int,
                self.word_count as int,
            );
        }
        let mut cells: Vec<usize> = Vec::new();
        let mut variable: usize = 1;
        while variable <= count
            invariant
                1 <= variable <= count + 1,
                cells@.len() == variable - 1,
                forall|i: int| 0 <= i < cells@.len() ==> #[trigger] cells@[i] as int == i + 1,
            decreases count + 1 - variable,
        {
            cells.push(variable);
            variable += 1;
        }
        cells
    }

    /// Returns the variable associated to the given word at the given slot.
    ///
    /// Slot variables are put after cell variables, so the first slot variable
    /// comes right after the number of cell variables.
    pub fn representing_slot(&self, slot_index: usize, word_index: usize) -> (variable: usize)
        requires
            self.wf(),
            slot_index < self.spec_grid().slots_spec().len(),
            word_index < self.spec_word_count(),
        ensures
            variable as int == spec_slot_var(
                self.spec_cell_count(),
                self.spec_word_count(),
                slot_index as int,
                word_index as int,
            ),
            self.spec_cell_count() < variable as int <= self.spec_count(),
            variable <= i32::MAX,
    {
        proof {
            lemma_slot_var_bounds(
                self.spec_grid().slots_spec().len() as int,
                self.spec_word_count(),
                slot_index as int,
                word_index as int,
            );
            lemma_cell_count_non_negative(
                self.spec_grid().spec_row_count(),
                self.spec_grid().spec_column_count(),
            );
        }
        self.representing_cell_count()  // last cell variable
         + slot_index * self.word_count + word_index + 1
    }

    /// Returns the variable associated to the given word at the given slot.
    pub fn slot(&self, slot_index: usize, word_index: usize) -> (variable: usize)
        requires
            self.wf(),
            slot_index < self.spec_grid().slots_spec().len(),
            word_index < self.spec_word_count(),
        ensures
            variable as int == spec_slot_var(
                self.spec_cell_count(),
                self.spec_word_count(),
                slot_index as int,
                word_index as int,
            ),
            self.spec_cell_count() < variable as int <= self.spec_count(),
            variable <= i32::MAX,
    {
        self.representing_slot(slot_index, word_index)
    }

    /// Translates a vector of the variables states back to a crossword grid.
    ///
    /// The model must cover the cell variables and assign at least one
    /// positive value to every cell; the constraints guarantee exactly one.
    #[verifier::loop_isolation(false)]
    pub fn back_to_domain(&self, model: &Vec<i32>) -> (output_grid: String)
        requires
            self.wf(),
            model_covers(
                model@,
                self.spec_grid().spec_row_count(),
                self.spec_grid().spec_column_count(),
            ),
        ensures
            output_grid@ == decoded_grid(
                model@,
                self.spec_grid().spec_row_count(),
                self.spec_grid().spec_column_count(),
            ),
    {
        let row_count = self.grid.row_count();
        let column_count = self.grid.column_count();
        let ghost cc = self.spec_grid().spec_column_count();
        let mut out: Vec<char> = Vec::new();
        proof {
            assert(out@ =~= decoded_rows(model@, cc, 0));
        }
        let mut row: usize = 0;
        while row < row_count
            invariant
                row <= row_count,
                out@ =~= decoded_rows(model@, cc, row as int),
            decreases row_count - row,
        {
            if row > 0 {
                out.push('\n');
            }
            let ghost sep: Seq<char> = if row > 0 {
                seq!['\n']
            } else {
                seq![]
            };
            let mut column: usize = 0;
            while column < column_count
                invariant
                    row < row_count,
                    column <= column_count,
                    sep == if row > 0 {
                        seq!['\n']
                    } else {
                        seq![]
                    },
                    out@ =~= decoded_rows(model@, cc, row as int) + sep + decoded_row(
                        model@,
                        cc,
                        row as int,
                    ).take(column as int),
                decreases column_count - column,
            {
                let base = self.representing_cell(row, column, 0) - 1;
                proof {
                    lemma_cell_var_bounds(cc, row_count as int, row as int, column as int, 0);
                    assert(base as int == cell_base(cc, row as int, column as int));
                }
                let value = first_positive_value(model, base);
                proof {
                    assert(first_positive(model@, base as int, 0) < CELL_VALUE_COUNT);
                }
                let character = if value == BLOCK_INDEX {
                    grid::BLOCK
                } else {
                    alphabet::letter_at(value)
                };
                out.push(character);
                proof {
                    assert(character == decoded_cell_char(model@, cc, row as int, column as int));
                    assert(decoded_row(model@, cc, row as int).take(column as int).push(character)
                        =~= decoded_row(model@, cc, row as int).take(column as int + 1));
                    assert(out@ =~= decoded_rows(model@, cc, row as int) + sep + decoded_row(
                        model@,
                        cc,
                        row as int,
                    ).take(column as int + 1));
                }
                column += 1;
            }
            proof {
                assert(decoded_row(model@, cc, row as int).take(column_count as int)
                    =~= decoded_row(model@, cc, row as int));
                assert(out@ =~= decoded_rows(model@, cc, row as int + 1));
            }
            row += 1;
        }
        text::chars_to_string(&out)
    }

    /// Returns whether a model covers the cell variables of the grid: long
    /// enough, and at least one positive value per cell. Models of a solver
    /// that received the problem's clauses always do.
    #[verifier::loop_isolation(false)]
    pub fn model_covers_cells(&self, model: &Vec<i32>) -> (result: bool)
        requires
            self.wf(),
        ensures
            result == model_covers(
                model@,
                self.spec_grid().spec_row_count(),
                self.spec_grid().spec_column_count(),
            ),
    {
        let row_count = self.grid.row_count();
        let column_count = self.grid.column_count();
        let ghost cc = self.spec_grid().spec_column_count();
        let cell_count = self.representing_cell_count();
        if model.len() < cell_count {
            return false;
        }
        let mut row: usize = 0;
        while row < row_count
            invariant
                row <= row_count,
                forall|r: int, c: int|
                    0 <= r < row && 0 <= c < column_count ==> first_positive(
                        model@,
                        #[trigger] cell_base(cc, r, c),
                        0,
                    ) < CELL_VALUE_COUNT,
            decreases row_count - row,
        {
            let mut column: usize = 0;
            while column < column_count
                invariant
                    row < row_count,
                    column <= column_count,
                    forall|r: int, c: int|
                        0 <= r < row && 0 <= c < column_count ==> first_positive(
                            model@,
                            #[trigger] cell_base(cc, r, c),
                            0,
                        ) < CELL_VALUE_COUNT,
                    forall|c: int|
                        0 <= c < column ==> first_positive(
                            model@,
                            #[trigger] cell_base(cc, row as int, c),
                            0,
                        ) < CELL_VALUE_COUNT,
                decreases column_count - column,
            {
                let base = self.representing_cell(row, column, 0) - 1;
                proof {
                    lemma_cell_var_bounds(cc, row_count as int, row as int, column as int, 0);
                    assert(base as int == cell_base(cc, row as int, column as int));
                }
                if first_positive_value(model, base) == CELL_VALUE_COUNT {
                    return false;
                }
                column += 1;
            }
            row += 1;
        }
        true
    }

    /// Returns the number of variables representing cells.
    pub fn representing_cell_count(&self) -> (count: usize)
        requires
            self.wf(),
        ensures
            count as int == self.spec_cell_count(),
    {
        proof {
            lemma_cell_count_non_negative(
                self.spec_grid().spec_row_count(),
                self.spec_grid().spec_column_count(),
            );
            lemma_slot_part_non_negative(self.spec_grid().slots_spec().len() as int, self.word_count as int);
        }
        self.grid.column_count() * self.grid.row_count() * CELL_VALUE_COUNT
    }

    /// Returns the number of variables representing slots.
    pub fn representing_slot_count(&self) -> (count: usize)
        requires
            self.wf(),
        ensures
            count as int == self.spec_slot_count(),
    {
        proof {
            lemma_cell_count_non_negative(
                self.spec_grid().spec_row_count(),
                self.spec_grid().spec_column_count(),
            );
            lemma_slot_part_non_negative(self.spec_grid().slots_spec().len() as int, self.word_count as int);
        }
        self.grid.slot_count() * self.word_count
    }

    /// Returns the number of variables.
    pub fn count(&self) -> (count: usize)
        requires
            self.wf(),
        ensures
            count as int == self.spec_count(),
    {
        self.representing_cell_count() + self.representing_slot_count()
    }
}

/// If no value before `k` is positive, the first positive value at or after 0
/// is the first positive value at or after `k`.
proof fn lemma_first_positive_from(model: Seq<i32>, base: int, v: int, k: int)
    requires
        0 <= v <= k <= CELL_VALUE_COUNT,
        forall|m: int| v <= m < k ==> #[trigger] model[base + m] <= 0,
    ensures
        first_positive(model, base, v) == first_positive(model, base, k),
    decreases k - v,
{
    if v < k {
        lemma_first_positive_from(model, base, v + 1, k);
    }
}

/// Returns the first value of the cell beginning at `base` whose variable is
/// positive in the model, or [CELL_VALUE_COUNT] if none is.
#[verifier::loop_isolation(false)]
fn first_positive_value(model: &Vec<i32>, base: usize) -> (value: usize)
    requires
        base + CELL_VALUE_COUNT <= model@.len(),
    ensures
        value as int == first_positive(model@, base as int, 0),
        value <= CELL_VALUE_COUNT,
{
    let model_len = model.len();
    let mut value: usize = 0;
    while value < CELL_VALUE_COUNT
        invariant
            value <= CELL_VALUE_COUNT,
            model_len == model@.len(),
            forall|m: int| 0 <= m < value ==> #[trigger] model@[base + m] <= 0,
        decreases CELL_VALUE_COUNT - value,
    {
        if model[base + value] > 0 {
            proof {
                lemma_first_positive_from(model@, base as int, 0, value as int);
            }
            return value;
        }
        value += 1;
    }
    proof {
        lemma_first_positive_from(model@, base as int, 0, CELL_VALUE_COUNT as int);
    }
    CELL_VALUE_COUNT
}

/// The product of grid dimensions and value count is non-negative.
proof fn lemma_cell_count_non_negative(row_count: int, column_count: int)
    requires
        0 <= row_count,
        0 <= column_count,
    ensures
        0 <= row_count * column_count * (CELL_VALUE_COUNT as int),
        column_count * row_count * (CELL_VALUE_COUNT as int) == row_count * column_count * (
        CELL_VALUE_COUNT as int),
{
    assert(0 <= row_count * column_count * 27 && column_count * row_count * 27 == row_count
        * column_count * 27) by (nonlinear_arith)
        requires
            0 <= row_count && 0 <= column_count,
    ;
}

/// The slot part of the variable space is non-negative.
proof fn lemma_slot_part_non_negative(slot_count: int, word_count: int)
    requires
        0 <= slot_count,
        0 <= word_count,
    ensures
        0 <= slot_count * word_count,
{
    assert(0 <= slot_count * word_count) by (nonlinear_arith)
        requires
            0 <= slot_count && 0 <= word_count,
    ;
}

/// Every slot variable of a slot and word in range lies in the slot band.
pub proof fn lemma_slot_var_bounds(slot_count: int, word_count: int, slot_index: int, word_index: int)
    requires
        0 <= slot_index < slot_count,
        0 <= word_index < word_count,
    ensures
        0 <= slot_index * word_count,
        slot_index * word_count + word_index + 1 <= slot_count * word_count,
{
    assert(0 <= slot_index * word_count && slot_index * word_count + word_index + 1 <= slot_count
        * word_count) by (nonlinear_arith)
        requires
            0 <= slot_index && slot_index < slot_count && 0 <= word_index && word_index
                < word_count,
    ;
}

} // verus!
