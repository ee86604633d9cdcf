//! The meaning of clauses and models: which literals a model satisfies, and
//! what follows for models that satisfy the crossword's clause families.

use crate::constraints::{
    c1_clauses, c1_row, c1_rows, c2_clauses, c2_slot_clauses, c2_upto, c3_cell_lit, c3_clauses,
    c3_row, c3_rows, cell_group, slot_and_clauses, slot_word_lits, word_conjunction,
};
use crate::slot::Slot;
use crate::solver::{and_clauses, at_most_one_clauses, exactly_one_clauses};
use crate::grid;
use crate::variables::{cell_base, decoded_cell_char, decoded_grid, first_positive, spec_cell_var, spec_slot_var, BLOCK_INDEX, CELL_VALUE_COUNT};
use vstd::prelude::*;

verus! {

/// Whether a model satisfies a literal. The model is indexed by
/// `variable - 1`: a positive entry makes the variable true, a negative one
/// makes it false, a zero entry leaves it unknown and satisfies no literal.
pub open spec fn lit_sat(model: Seq<i32>, literal: int) -> bool {
    if literal > 0 {
        0 <= literal - 1 < model.len() && model[literal - 1] > 0
    } else {
        0 <= -literal - 1 < model.len() && model[-literal - 1] < 0
    }
}

/// Whether a model satisfies a clause: at least one literal holds.
pub open spec fn clause_sat(model: Seq<i32>, clause: Seq<int>) -> bool {
    exists|i: int| 0 <= i < clause.len() && lit_sat(model, #[trigger] clause[i])
}

/// Whether a model satisfies every clause of a set.
pub open spec fn all_sat(model: Seq<i32>, clauses: Seq<Seq<int>>) -> bool {
    forall|i: int| 0 <= i < clauses.len() ==> clause_sat(model, #[trigger] clauses[i])
}

/// A model satisfies a concatenation of clause sets exactly when it satisfies
/// both parts.
pub proof fn lemma_all_sat_concat(model: Seq<i32>, left: Seq<Seq<int>>, right: Seq<Seq<int>>)
    ensures
        all_sat(model, left + right) <==> all_sat(model, left) && all_sat(model, right),
{
    if all_sat(model, left + right) {
        assert forall|i: int| 0 <= i < left.len() implies clause_sat(model, #[trigger] left[i]) by {
            assert((left + right)[i] == left[i]);
        }
        assert forall|i: int| 0 <= i < right.len() implies clause_sat(model, #[trigger] right[i]) by {
            assert((left + right)[left.len() + i] == right[i]);
        }
    }
    if all_sat(model, left) && all_sat(model, right) {
        assert forall|i: int| 0 <= i < (left + right).len() implies clause_sat(
            model,
            #[trigger] (left + right)[i],
        ) by {
            if i < left.len() {
                assert((left + right)[i] == left[i]);
            } else {
                assert((left + right)[i] == right[i - left.len()]);
            }
        }
    }
}

/// A model satisfying the pairwise at-most-one decomposition satisfies every
/// pair of negated literals.
proof fn lemma_at_most_one_pairs(model: Seq<i32>, lits: Seq<int>)
    requires
        all_sat(model, at_most_one_clauses(lits)),
    ensures
        forall|i: int, j: int|
            0 <= i < j < lits.len() ==> clause_sat(model, #[trigger] seq![-lits[i], -lits[j]]),
    decreases lits.len(),
{
    if lits.len() > 1 {
        let head = Seq::new((lits.len() - 1) as nat, |j: int| seq![-lits[0], -lits[j + 1]]);
        let tail = at_most_one_clauses(lits.drop_first());
        assert(at_most_one_clauses(lits) == head + tail);
        lemma_all_sat_concat(model, head, tail);
        lemma_at_most_one_pairs(model, lits.drop_first());
        assert forall|i: int, j: int| 0 <= i < j < lits.len() implies clause_sat(
            model,
            #[trigger] seq![-lits[i], -lits[j]],
        ) by {
            if i == 0 {
                assert(head[j - 1] == seq![-lits[0], -lits[j]]);
                assert(clause_sat(model, head[j - 1]));
            } else {
                let shorter = lits.drop_first();
                assert(shorter[i - 1] == lits[i] && shorter[j - 1] == lits[j]);
                assert(clause_sat(model, seq![-shorter[i - 1], -shorter[j - 1]]));
            }
        }
    }
}

/// Extracts one row's clauses of the first constraint.
proof fn lemma_c1_extract_row(model: Seq<i32>, column_count: int, rows: int, r: int)
    requires
        all_sat(model, c1_rows(column_count, rows)),
        0 <= r < rows,
    ensures
        all_sat(model, c1_row(column_count, r, column_count)),
    decreases rows,
{
    let head = c1_rows(column_count, rows - 1);
    let tail = c1_row(column_count, rows - 1, column_count);
    assert(c1_rows(column_count, rows) == head + tail);
    lemma_all_sat_concat(model, head, tail);
    if r < rows - 1 {
        lemma_c1_extract_row(model, column_count, rows - 1, r);
    }
}

/// Extracts one cell's exactly-one decomposition from a row of the first
/// constraint.
proof fn lemma_c1_extract_cell(model: Seq<i32>, column_count: int, r: int, columns: int, c: int)
    requires
        all_sat(model, c1_row(column_count, r, columns)),
        0 <= c < columns,
    ensures
        all_sat(model, exactly_one_clauses(cell_group(column_count, r, c))),
    decreases columns,
{
    let head = c1_row(column_count, r, columns - 1);
    let tail = exactly_one_clauses(cell_group(column_count, r, columns - 1));
    assert(c1_row(column_count, r, columns) == head + tail);
    lemma_all_sat_concat(model, head, tail);
    if c < columns - 1 {
        lemma_c1_extract_cell(model, column_count, r, columns - 1, c);
    }
}

/// A model satisfying a cell's exactly-one decomposition assigns the cell
/// exactly one positive value.
proof fn lemma_exactly_one_group(model: Seq<i32>, column_count: int, r: int, c: int)
    requires
        all_sat(model, exactly_one_clauses(cell_group(column_count, r, c))),
        0 <= cell_base(column_count, r, c),
    ensures
        exists|v: int|
            0 <= v < CELL_VALUE_COUNT && model[cell_base(column_count, r, c) + #[trigger] (v * 1)]
                > 0,
        forall|v: int, w: int|
            0 <= v < w < CELL_VALUE_COUNT ==> !(#[trigger] model[cell_base(column_count, r, c) + v]
                > 0 && #[trigger] model[cell_base(column_count, r, c) + w] > 0),
{
    let base = cell_base(column_count, r, c);
    let group = cell_group(column_count, r, c);
    let head: Seq<Seq<int>> = seq![group];
    let tail = at_most_one_clauses(group);
    assert(exactly_one_clauses(group) == head + tail);
    lemma_all_sat_concat(model, head, tail);
    // At least one: the group clause holds.
    assert(clause_sat(model, head[0]));
    let i = choose|i: int| 0 <= i < group.len() && lit_sat(model, #[trigger] group[i]);
    assert(group[i] == spec_cell_var(column_count, r, c, i));
    assert(group[i] - 1 == base + i);
    assert(model[base + i * 1] > 0);
    // At most one: every pair of negated literals holds.
    lemma_at_most_one_pairs(model, group);
    assert forall|v: int, w: int| 0 <= v < w < CELL_VALUE_COUNT implies !(#[trigger] model[base
        + v] > 0 && #[trigger] model[base + w] > 0) by {
        let pair = seq![-group[v], -group[w]];
        assert(clause_sat(model, pair));
        let k = choose|k: int| 0 <= k < pair.len() && lit_sat(model, #[trigger] pair[k]);
        if k == 0 {
            assert(lit_sat(model, -group[v]));
        } else {
            assert(lit_sat(model, -group[w]));
        }
    }
}

/// The first positive value of a cell is no later than any positive value.
proof fn lemma_first_positive_le(model: Seq<i32>, base: int, from: int, v: int)
    requires
        0 <= from <= v < CELL_VALUE_COUNT,
        model[base + v] > 0,
    ensures
        from <= first_positive(model, base, from) <= v,
        model[base + first_positive(model, base, from)] > 0,
    decreases v - from,
{
    if !(model[base + from] > 0) {
        lemma_first_positive_le(model, base, from + 1, v);
    }
}

/// LAW: in every model satisfying the first constraint family, every cell of
/// the grid has exactly one of its 27 variables positive, and that value is
/// what the decoder reads.
pub proof fn lemma_one_value_per_cell(
    model: Seq<i32>,
    row_count: int,
    column_count: int,
    r: int,
    c: int,
)
    requires
        all_sat(model, c1_clauses(row_count, column_count)),
        0 <= r < row_count,
        0 <= c < column_count,
    ensures
        ({
            let base = cell_base(column_count, r, c);
            let v = first_positive(model, base, 0);
            &&& 0 <= v < CELL_VALUE_COUNT
            &&& model[base + v] > 0
            &&& forall|w: int|
                0 <= w < CELL_VALUE_COUNT && w != v ==> !(#[trigger] model[base + w] > 0)
        }),
{
    crate::variables::lemma_cell_var_bounds(column_count, row_count, r, c, 0);
    lemma_c1_extract_row(model, column_count, row_count, r);
    lemma_c1_extract_cell(model, column_count, r, column_count, c);
    lemma_exactly_one_group(model, column_count, r, c);
    let base = cell_base(column_count, r, c);
    let some_v = choose|v: int|
        0 <= v < CELL_VALUE_COUNT && model[base + #[trigger] (v * 1)] > 0;
    assert(model[base + some_v] > 0);
    lemma_first_positive_le(model, base, 0, some_v);
    let v = first_positive(model, base, 0);
    assert forall|w: int| 0 <= w < CELL_VALUE_COUNT && w != v implies !(#[trigger] model[base + w]
        > 0) by {
        if model[base + w] > 0 {
            if w < v {
                assert(!(model[base + v] > 0 && model[base + w] > 0));
            } else {
                assert(!(model[base + v] > 0 && model[base + w] > 0));
            }
        }
    }
}

/// Extracts one row's unit clauses of the third constraint.
proof fn lemma_c3_extract_row(
    model: Seq<i32>,
    g: Seq<Seq<char>>,
    column_count: int,
    rows: int,
    r: int,
)
    requires
        all_sat(model, c3_rows(g, column_count, rows)),
        0 <= r < rows,
    ensures
        all_sat(model, c3_row(g, column_count, r, column_count)),
    decreases rows,
{
    let head = c3_rows(g, column_count, rows - 1);
    let tail = c3_row(g, column_count, rows - 1, column_count);
    assert(c3_rows(g, column_count, rows) == head + tail);
    lemma_all_sat_concat(model, head, tail);
    if r < rows - 1 {
        lemma_c3_extract_row(model, g, column_count, rows - 1, r);
    }
}

/// Extracts one cell's unit clause of the third constraint.
proof fn lemma_c3_extract_cell(
    model: Seq<i32>,
    g: Seq<Seq<char>>,
    column_count: int,
    r: int,
    columns: int,
    c: int,
)
    requires
        all_sat(model, c3_row(g, column_count, r, columns)),
        0 <= c < columns,
    ensures
        lit_sat(model, c3_cell_lit(g, column_count, r, c)),
    decreases columns,
{
    let head = c3_row(g, column_count, r, columns - 1);
    let tail: Seq<Seq<int>> = seq![seq![c3_cell_lit(g, column_count, r, columns - 1)]];
    assert(c3_row(g, column_count, r, columns) == head + tail);
    lemma_all_sat_concat(model, head, tail);
    if c < columns - 1 {
        lemma_c3_extract_cell(model, g, column_count, r, columns - 1, c);
    } else {
        assert(clause_sat(model, tail[0]));
        let k = choose|k: int| 0 <= k < tail[0].len() && lit_sat(model, #[trigger] tail[0][k]);
        assert(tail[0][k] == c3_cell_lit(g, column_count, r, c));
    }
}

/// LAW: in every model satisfying the first and third constraint families,
/// the decoder preserves the input grid: a prefilled letter stays, a block
/// stays, and a free cell receives a letter - never a block.
pub proof fn lemma_prefilled_preserved(
    model: Seq<i32>,
    g: Seq<Seq<char>>,
    column_count: int,
    r: int,
    c: int,
)
    requires
        all_sat(model, c1_clauses(g.len() as int, column_count)),
        all_sat(model, c3_clauses(g, column_count)),
        0 <= r < g.len(),
        0 <= c < column_count,
        grid::valid_cell_char(g[r][c]),
    ensures
        g[r][c] == grid::BLOCK ==> decoded_cell_char(model, column_count, r, c) == grid::BLOCK,
        crate::alphabet::spec_contains(g[r][c]) ==> decoded_cell_char(model, column_count, r, c)
            == g[r][c],
        g[r][c] == grid::EMPTY ==> crate::alphabet::spec_contains(
            decoded_cell_char(model, column_count, r, c),
        ),
{
    crate::variables::lemma_cell_var_bounds(column_count, g.len() as int, r, c, 0);
    lemma_one_value_per_cell(model, g.len() as int, column_count, r, c);
    lemma_c3_extract_row(model, g, column_count, g.len() as int, r);
    lemma_c3_extract_cell(model, g, column_count, r, column_count, c);
    crate::alphabet::lemma_letter_index_bijection();
    let base = cell_base(column_count, r, c);
    let v = first_positive(model, base, 0);
    let value = g[r][c];
    if value == grid::EMPTY {
        // The unit clause forbids the block value; the decoded value is a letter.
        assert(lit_sat(model, -spec_cell_var(column_count, r, c, BLOCK_INDEX as int)));
        assert(model[base + BLOCK_INDEX] < 0);
        assert(v != BLOCK_INDEX);
        assert(decoded_cell_char(model, column_count, r, c) == crate::alphabet::spec_letter_at(v));
        assert(crate::alphabet::spec_contains(crate::alphabet::spec_letter_at(v)));
    } else if value == grid::BLOCK {
        assert(lit_sat(model, spec_cell_var(column_count, r, c, BLOCK_INDEX as int)));
        assert(model[base + BLOCK_INDEX] > 0);
        assert(v == BLOCK_INDEX);
    } else {
        let index = crate::alphabet::spec_index_of(value);
        assert(lit_sat(model, spec_cell_var(column_count, r, c, index)));
        assert(model[base + index] > 0);
        assert(v == index);
        assert(decoded_cell_char(model, column_count, r, c) == crate::alphabet::spec_letter_at(
            index,
        ));
    }
}

/// Extracts one slot's clauses of the second constraint.
proof fn lemma_c2_extract_slot(
    model: Seq<i32>,
    column_count: int,
    cell_count: int,
    word_count: int,
    slots: Seq<Slot>,
    words: Seq<Seq<char>>,
    upto: int,
    s: int,
)
    requires
        all_sat(model, c2_upto(column_count, cell_count, word_count, slots, words, upto)),
        0 <= s < upto,
    ensures
        all_sat(
            model,
            c2_slot_clauses(column_count, cell_count, word_count, slots[s], s, words),
        ),
    decreases upto,
{
    let head = c2_upto(column_count, cell_count, word_count, slots, words, upto - 1);
    let tail = c2_slot_clauses(column_count, cell_count, word_count, slots[upto - 1], upto - 1, words);
    assert(c2_upto(column_count, cell_count, word_count, slots, words, upto) == head + tail);
    lemma_all_sat_concat(model, head, tail);
    if s < upto - 1 {
        lemma_c2_extract_slot(model, column_count, cell_count, word_count, slots, words, upto - 1, s);
    }
}

/// Extracts one word's equivalence clauses of a slot's second constraint.
proof fn lemma_c2_extract_word(
    model: Seq<i32>,
    column_count: int,
    cell_count: int,
    word_count: int,
    slot: Slot,
    s: int,
    words: Seq<Seq<char>>,
    upto: int,
    w: int,
)
    requires
        all_sat(model, slot_and_clauses(column_count, cell_count, word_count, slot, s, words, upto)),
        0 <= w < upto,
        words[w].len() == slot.spec_len(),
    ensures
        all_sat(
            model,
            and_clauses(
                spec_slot_var(cell_count, word_count, s, w),
                word_conjunction(column_count, slot, words[w]),
            ),
        ),
    decreases upto,
{
    let head = slot_and_clauses(column_count, cell_count, word_count, slot, s, words, upto - 1);
    let tail: Seq<Seq<int>> = if words[upto - 1].len() == slot.spec_len() {
        and_clauses(
            spec_slot_var(cell_count, word_count, s, upto - 1),
            word_conjunction(column_count, slot, words[upto - 1]),
        )
    } else {
        seq![]
    };
    assert(slot_and_clauses(column_count, cell_count, word_count, slot, s, words, upto) == head
        + tail);
    lemma_all_sat_concat(model, head, tail);
    if w < upto - 1 {
        lemma_c2_extract_word(model, column_count, cell_count, word_count, slot, s, words, upto - 1, w);
    }
}

/// If a model makes the defined literal of an equivalence true, it makes
/// every conjunct true.
proof fn lemma_and_clauses_forward(model: Seq<i32>, literal: int, conj: Seq<int>)
    requires
        all_sat(model, and_clauses(literal, conj)),
        lit_sat(model, literal),
        literal > 0,
    ensures
        forall|i: int| 0 <= i < conj.len() ==> lit_sat(model, #[trigger] conj[i]),
{
    let head = Seq::new(conj.len(), |i: int| seq![-literal, conj[i]]);
    let tail: Seq<Seq<int>> = seq![conj.map_values(|l: int| -l).push(literal)];
    assert(and_clauses(literal, conj) == head + tail);
    lemma_all_sat_concat(model, head, tail);
    assert forall|i: int| 0 <= i < conj.len() implies lit_sat(model, #[trigger] conj[i]) by {
        assert(clause_sat(model, head[i]));
        let k = choose|k: int| 0 <= k < head[i].len() && lit_sat(model, #[trigger] head[i][k]);
        if k == 0 {
            assert(lit_sat(model, -literal));
            assert(false);
        } else {
            assert(head[i][k] == conj[i]);
        }
    }
}

/// Every literal of a slot's word choice stands for a word of the slot's
/// length.
proof fn lemma_slot_word_lits_element_at(
    cell_count: int,
    word_count: int,
    slot: Slot,
    s: int,
    words: Seq<Seq<char>>,
    upto: int,
    p: int,
)
    requires
        0 <= upto <= words.len(),
        0 <= p < slot_word_lits(cell_count, word_count, slot, s, words, upto).len(),
    ensures
        exists|w: int|
            0 <= w < upto && words[w].len() == slot.spec_len() && slot_word_lits(
                cell_count,
                word_count,
                slot,
                s,
                words,
                upto,
            )[p] == #[trigger] spec_slot_var(cell_count, word_count, s, w),
    decreases upto,
{
    if upto > 0 {
        let head = slot_word_lits(cell_count, word_count, slot, s, words, upto - 1);
        let tail: Seq<int> = if words[upto - 1].len() == slot.spec_len() {
            seq![spec_slot_var(cell_count, word_count, s, upto - 1)]
        } else {
            seq![]
        };
        let whole = slot_word_lits(cell_count, word_count, slot, s, words, upto);
        assert(whole == head + tail);
        if p < head.len() {
            lemma_slot_word_lits_element_at(cell_count, word_count, slot, s, words, upto - 1, p);
            let w = choose|w: int|
                0 <= w < upto - 1 && words[w].len() == slot.spec_len() && head[p]
                    == #[trigger] spec_slot_var(cell_count, word_count, s, w);
            assert(whole[p] == spec_slot_var(cell_count, word_count, s, w));
        } else {
            assert(whole[p] == tail[p - head.len()]);
            assert(whole[p] == spec_slot_var(cell_count, word_count, s, upto - 1));
        }
    }
}

/// The variable of every word of the slot's length is among the literals of
/// the slot's word choice.
proof fn lemma_slot_word_lits_contains(
    cell_count: int,
    word_count: int,
    slot: Slot,
    s: int,
    words: Seq<Seq<char>>,
    upto: int,
    w: int,
)
    requires
        0 <= upto <= words.len(),
        0 <= w < upto,
        words[w].len() == slot.spec_len(),
    ensures
        exists|p: int|
            0 <= p < slot_word_lits(cell_count, word_count, slot, s, words, upto).len()
                && #[trigger] slot_word_lits(cell_count, word_count, slot, s, words, upto)[p]
                == spec_slot_var(cell_count, word_count, s, w),
    decreases upto,
{
    if upto > 0 {
        let head = slot_word_lits(cell_count, word_count, slot, s, words, upto - 1);
        let tail: Seq<int> = if words[upto - 1].len() == slot.spec_len() {
            seq![spec_slot_var(cell_count, word_count, s, upto - 1)]
        } else {
            seq![]
        };
        let whole = slot_word_lits(cell_count, word_count, slot, s, words, upto);
        assert(whole == head + tail);
        if w < upto - 1 {
            lemma_slot_word_lits_contains(cell_count, word_count, slot, s, words, upto - 1, w);
            let p = choose|p: int|
                0 <= p < head.len() && #[trigger] head[p] == spec_slot_var(
                    cell_count,
                    word_count,
                    s,
                    w,
                );
            assert(whole[p] == spec_slot_var(cell_count, word_count, s, w));
        } else {
            assert(whole[head.len() as int] == spec_slot_var(cell_count, word_count, s, w));
        }
    }
}

/// LAW: in every model satisfying the constraint families, each slot of the
/// grid is filled by exactly one word of its length from the list, and the
/// decoder writes that word's letters in the slot's cells.
pub proof fn lemma_one_word_per_slot(
    model: Seq<i32>,
    row_count: int,
    column_count: int,
    cell_count: int,
    slots: Seq<Slot>,
    words: Seq<Seq<char>>,
    s: int,
)
    requires
        all_sat(model, c1_clauses(row_count, column_count)),
        all_sat(model, c2_clauses(column_count, cell_count, words.len() as int, slots, words)),
        cell_count == row_count * column_count * (CELL_VALUE_COUNT as int),
        0 <= s < slots.len(),
        slots[s].wf(),
        (if slots[s].is_down {
            slots[s].end <= row_count && slots[s].offset < column_count
        } else {
            slots[s].end <= column_count && slots[s].offset < row_count
        }),
        forall|w: int, j: int|
            0 <= w < words.len() && 0 <= j < words[w].len() ==> crate::alphabet::spec_contains(
                #[trigger] words[w][j],
            ),
    ensures
        exists|w: int|
            0 <= w < words.len() && words[w].len() == slots[s].spec_len() && lit_sat(
                model,
                #[trigger] spec_slot_var(cell_count, words.len() as int, s, w),
            ),
        forall|w1: int, w2: int|
            0 <= w1 < words.len() && words[w1].len() == slots[s].spec_len() && 0 <= w2
                < words.len() && words[w2].len() == slots[s].spec_len() && lit_sat(
                model,
                #[trigger] spec_slot_var(cell_count, words.len() as int, s, w1),
            ) && lit_sat(
                model,
                #[trigger] spec_slot_var(cell_count, words.len() as int, s, w2),
            ) ==> w1 == w2,
        forall|w: int, i: int|
            0 <= w < words.len() && words[w].len() == slots[s].spec_len() && lit_sat(
                model,
                #[trigger] spec_slot_var(cell_count, words.len() as int, s, w),
            ) && 0 <= i < words[w].len() ==> decoded_cell_char(
                model,
                column_count,
                slots[s].spec_position(i).row as int,
                slots[s].spec_position(i).column as int,
            ) == #[trigger] words[w][i],
{
    let slot = slots[s];
    let word_count = words.len() as int;
    lemma_c2_extract_slot(model, column_count, cell_count, word_count, slots, words, slots.len() as int, s);
    let and_part = slot_and_clauses(column_count, cell_count, word_count, slot, s, words, word_count);
    let lits = slot_word_lits(cell_count, word_count, slot, s, words, word_count);
    let one_part = exactly_one_clauses(lits);
    assert(c2_slot_clauses(column_count, cell_count, word_count, slot, s, words) == and_part
        + one_part);
    lemma_all_sat_concat(model, and_part, one_part);
    // At least one word: the disjunction over the slot's word literals holds.
    let head: Seq<Seq<int>> = seq![lits];
    let amo = at_most_one_clauses(lits);
    assert(one_part == head + amo);
    lemma_all_sat_concat(model, head, amo);
    assert(clause_sat(model, head[0]));
    let p = choose|p: int| 0 <= p < lits.len() && lit_sat(model, #[trigger] lits[p]);
    lemma_slot_word_lits_element_at(cell_count, word_count, slot, s, words, word_count, p);
    let some_w = choose|w: int|
        0 <= w < word_count && words[w].len() == slot.spec_len() && lits[p]
            == #[trigger] spec_slot_var(cell_count, word_count, s, w);
    assert(lit_sat(model, spec_slot_var(cell_count, word_count, s, some_w)));
    // At most one word: two positive word literals would contradict a pair clause.
    lemma_at_most_one_pairs(model, lits);
    crate::variables::lemma_slot_var_injective(cell_count, slots.len() as int, word_count);
    assert forall|w1: int, w2: int|
        0 <= w1 < words.len() && words[w1].len() == slot.spec_len() && 0 <= w2 < words.len()
            && words[w2].len() == slot.spec_len() && lit_sat(
            model,
            #[trigger] spec_slot_var(cell_count, word_count, s, w1),
        ) && lit_sat(
            model,
            #[trigger] spec_slot_var(cell_count, word_count, s, w2),
        ) implies w1 == w2 by {
        if w1 != w2 {
            let var1 = spec_slot_var(cell_count, word_count, s, w1);
            let var2 = spec_slot_var(cell_count, word_count, s, w2);
            assert(var1 != var2);
            lemma_slot_word_lits_contains(cell_count, word_count, slot, s, words, word_count, w1);
            lemma_slot_word_lits_contains(cell_count, word_count, slot, s, words, word_count, w2);
            let p1 = choose|p: int| 0 <= p < lits.len() && #[trigger] lits[p] == var1;
            let p2 = choose|p: int| 0 <= p < lits.len() && #[trigger] lits[p] == var2;
            assert(p1 != p2);
            let pair = if p1 < p2 {
                seq![-lits[p1], -lits[p2]]
            } else {
                seq![-lits[p2], -lits[p1]]
            };
            assert(clause_sat(model, pair));
            let k = choose|k: int| 0 <= k < pair.len() && lit_sat(model, #[trigger] pair[k]);
            assert(lit_sat(model, -var1) || lit_sat(model, -var2));
            assert(false);
        }
    }
    // The chosen word is written in the slot's cells.
    assert forall|w: int, i: int|
        0 <= w < words.len() && words[w].len() == slot.spec_len() && lit_sat(
            model,
            #[trigger] spec_slot_var(cell_count, word_count, s, w),
        ) && 0 <= i < words[w].len() implies decoded_cell_char(
        model,
        column_count,
        slot.spec_position(i).row as int,
        slot.spec_position(i).column as int,
    ) == #[trigger] words[w][i] by {
        let var = spec_slot_var(cell_count, word_count, s, w);
        let conj = word_conjunction(column_count, slot, words[w]);
        lemma_c2_extract_word(model, column_count, cell_count, word_count, slot, s, words, word_count, w);
        crate::variables::lemma_slot_var_bounds(slots.len() as int, word_count, s, w);
        assert(var > 0);
        lemma_and_clauses_forward(model, var, conj);
        let letter = words[w][i];
        let index = crate::alphabet::spec_index_of(letter);
        let r = slot.spec_position(i).row as int;
        let c = slot.spec_position(i).column as int;
        assert(lit_sat(model, conj[i]));
        assert(conj[i] == spec_cell_var(column_count, r, c, index));
        crate::alphabet::lemma_letter_index_bijection();
        crate::variables::lemma_cell_var_bounds(column_count, row_count, r, c, index);
        lemma_one_value_per_cell(model, row_count, column_count, r, c);
        let base = cell_base(column_count, r, c);
        assert(model[base + index] > 0);
        let v = first_positive(model, base, 0);
        assert(v == index);
    }
}

/// The first positive value of a cell lies in the value range, extended by
/// one for "none".
proof fn lemma_first_positive_range(model: Seq<i32>, base: int, v: int)
    requires
        0 <= v <= CELL_VALUE_COUNT,
    ensures
        v <= first_positive(model, base, v) <= CELL_VALUE_COUNT,
    decreases CELL_VALUE_COUNT - v,
{
    if v < CELL_VALUE_COUNT && !(model[base + v] > 0) {
        lemma_first_positive_range(model, base, v + 1);
    }
}

/// A decoded character is a letter, a block or - for a cell the model leaves
/// open - a placeholder; it is never a newline.
proof fn lemma_decoded_char_not_newline(model: Seq<i32>, column_count: int, r: int, c: int)
    ensures
        decoded_cell_char(model, column_count, r, c) != '\n',
{
    lemma_first_positive_range(model, cell_base(column_count, r, c), 0);
}

/// The decoded text of `r` rows splits back into exactly those rows.
proof fn lemma_split_decoded_rows(model: Seq<i32>, column_count: int, r: int)
    requires
        1 <= r,
        0 <= column_count,
    ensures
        grid::split_lines(crate::variables::decoded_rows(model, column_count, r)) =~= Seq::new(
            r as nat,
            |k: int| crate::variables::decoded_row(model, column_count, k),
        ),
    decreases r,
{
    let row = crate::variables::decoded_row(model, column_count, r - 1);
    assert forall|k: int| 0 <= k < row.len() implies row[k] != '\n' by {
        lemma_decoded_char_not_newline(model, column_count, r - 1, k);
    }
    if r == 1 {
        assert(crate::variables::decoded_rows(model, column_count, 0) == Seq::<char>::empty());
        assert(crate::variables::decoded_rows(model, column_count, 1) =~= row);
        grid::lemma_split_single_row(row);
        assert(grid::split_lines(crate::variables::decoded_rows(model, column_count, 1))
            =~= seq![row]);
    } else {
        lemma_split_decoded_rows(model, column_count, r - 1);
        let text = crate::variables::decoded_rows(model, column_count, r - 1);
        assert(crate::variables::decoded_rows(model, column_count, r) =~= text + seq!['\n'] + row);
        grid::lemma_split_append_row(text, row);
        assert(grid::split_lines(text + seq!['\n'] + row) =~= Seq::new(
            (r - 1) as nat,
            |k: int| crate::variables::decoded_row(model, column_count, k),
        ) + seq![row]);
    }
}

/// LAW: the decoder's output of a model satisfying the first and third
/// constraint families reparses into the original grid's shape - the same
/// number of rows, each as long as before - with every prefilled letter and
/// block preserved and every free cell filled with a letter.
pub proof fn lemma_round_trip(model: Seq<i32>, g: Seq<Seq<char>>, column_count: int)
    requires
        all_sat(model, c1_clauses(g.len() as int, column_count)),
        all_sat(model, c3_clauses(g, column_count)),
        grid::rows_valid(g),
        g.len() >= 1,
        column_count == g[0].len(),
    ensures
        ({
            let reparsed = grid::split_lines(
                decoded_grid(model, g.len() as int, column_count),
            );
            &&& reparsed.len() == g.len()
            &&& forall|r: int| 0 <= r < g.len() ==> #[trigger] reparsed[r].len() == column_count
            &&& forall|r: int, c: int|
                0 <= r < g.len() && 0 <= c < column_count ==> {
                    &&& (crate::alphabet::spec_contains(g[r][c]) ==> #[trigger] reparsed[r][c]
                        == g[r][c])
                    &&& (g[r][c] == grid::BLOCK ==> reparsed[r][c] == grid::BLOCK)
                    &&& (g[r][c] == grid::EMPTY ==> crate::alphabet::spec_contains(
                        reparsed[r][c],
                    ))
                }
        }),
{
    lemma_split_decoded_rows(model, column_count, g.len() as int);
    let reparsed = grid::split_lines(decoded_grid(model, g.len() as int, column_count));
    assert forall|r: int, c: int| 0 <= r < g.len() && 0 <= c < column_count implies {
        &&& (crate::alphabet::spec_contains(g[r][c]) ==> #[trigger] reparsed[r][c] == g[r][c])
        &&& (g[r][c] == grid::BLOCK ==> reparsed[r][c] == grid::BLOCK)
        &&& (g[r][c] == grid::EMPTY ==> crate::alphabet::spec_contains(reparsed[r][c]))
    } by {
        assert(grid::row_ok(g[r], g[0].len() as int));
        assert(grid::valid_cell_char(g[r][c]));
        lemma_prefilled_preserved(model, g, column_count, r, c);
        assert(reparsed[r][c] == decoded_cell_char(model, column_count, r, c));
    }
}

/// The clause refuting a recorded solution: the negation of every assigned
/// literal, unknown entries skipped. Entry `i` speaks for variable `i + 1`.
pub open spec fn refutation_of(model: Seq<i32>) -> Seq<int>
    decreases model.len(),
{
    if model.len() == 0 {
        seq![]
    } else {
        refutation_of(model.drop_last()) + (if model.last() > 0 {
            seq![-(model.len() as int)]
        } else if model.last() < 0 {
            seq![model.len() as int]
        } else {
            seq![]
        })
    }
}

/// Unfolds the refutation of a solution extended by one entry.
pub proof fn lemma_refutation_of_push(model: Seq<i32>, value: i32)
    ensures
        refutation_of(model.push(value)) == refutation_of(model) + (if value > 0 {
            seq![-(model.len() + 1 as int)]
        } else if value < 0 {
            seq![model.len() + 1 as int]
        } else {
            seq![]
        }),
{
    assert(model.push(value).drop_last() =~= model);
    assert(model.push(value).last() == value);
}

/// Every literal of a refutation contradicts the corresponding entry of the
/// refuted solution.
proof fn lemma_refutation_literals(model: Seq<i32>)
    ensures
        forall|j: int|
            0 <= j < refutation_of(model).len() ==> {
                let literal = #[trigger] refutation_of(model)[j];
                &&& (literal > 0 ==> literal <= model.len() && model[literal - 1] < 0)
                &&& (literal < 0 ==> -literal <= model.len() && model[-literal - 1] > 0)
                &&& literal != 0
            },
    decreases model.len(),
{
    if model.len() > 0 {
        lemma_refutation_literals(model.drop_last());
        let shorter = model.drop_last();
        let head = refutation_of(shorter);
        let tail: Seq<int> = if model.last() > 0 {
            seq![-(model.len() as int)]
        } else if model.last() < 0 {
            seq![model.len() as int]
        } else {
            seq![]
        };
        assert(refutation_of(model) == head + tail);
        assert forall|j: int| 0 <= j < refutation_of(model).len() implies {
            let literal = #[trigger] refutation_of(model)[j];
            &&& (literal > 0 ==> literal <= model.len() && model[literal - 1] < 0)
            &&& (literal < 0 ==> -literal <= model.len() && model[-literal - 1] > 0)
            &&& literal != 0
        } by {
            if j < head.len() {
                assert(refutation_of(model)[j] == head[j]);
                let literal = head[j];
                if literal > 0 {
                    assert(shorter[literal - 1] == model[literal - 1]);
                } else {
                    assert(shorter[-literal - 1] == model[-literal - 1]);
                }
            } else {
                assert(refutation_of(model)[j] == tail[j - head.len()]);
            }
        }
    }
}

/// LAW: a model satisfying the refutation clause of a recorded solution
/// flips some assigned variable of that solution: the enumeration never
/// yields the same assignment of the relevant variables twice.
pub proof fn lemma_refutation_forces_difference(solution: Seq<i32>, model: Seq<i32>)
    requires
        clause_sat(model, refutation_of(solution)),
    ensures
        exists|i: int|
            0 <= i < solution.len() && ((#[trigger] solution[i] > 0 && model[i] < 0) || (
            solution[i] < 0 && model[i] > 0)),
{
    lemma_refutation_literals(solution);
    let k = choose|k: int|
        0 <= k < refutation_of(solution).len() && lit_sat(
            model,
            #[trigger] refutation_of(solution)[k],
        );
    let literal = refutation_of(solution)[k];
    if literal > 0 {
        let i = literal - 1;
        assert(solution[i] < 0 && model[i] > 0);
    } else {
        let i = -literal - 1;
        assert(solution[i] > 0 && model[i] < 0);
    }
}

/// LAW: enumeration by refutation never repeats a solution. A recorded
/// solution covers exactly the cell variables; a later model that satisfies
/// both the cell constraints and the recorded solution's refutation clause
/// decodes to a different grid text than the recorded solution does.
pub proof fn lemma_refuted_solution_differs(
    solution: Seq<i32>,
    model: Seq<i32>,
    row_count: int,
    column_count: int,
)
    requires
        all_sat(solution, c1_clauses(row_count, column_count)),
        all_sat(model, c1_clauses(row_count, column_count)),
        clause_sat(model, refutation_of(solution)),
        solution.len() == row_count * column_count * (CELL_VALUE_COUNT as int),
        0 <= row_count,
        0 <= column_count,
    ensures
        exists|r: int, c: int|
            0 <= r < row_count && 0 <= c < column_count && #[trigger] decoded_cell_char(
                model,
                column_count,
                r,
                c,
            ) != decoded_cell_char(solution, column_count, r, c),
        decoded_grid(model, row_count, column_count) != decoded_grid(
            solution,
            row_count,
            column_count,
        ),
{
    lemma_refutation_forces_difference(solution, model);
    let i = choose|i: int|
        0 <= i < solution.len() && ((#[trigger] solution[i] > 0 && model[i] < 0) || (solution[i]
            < 0 && model[i] > 0));
    crate::variables::lemma_cell_var_dense_at(row_count, column_count, i + 1);
    let (r, c, v) = choose|r: int, c: int, v: int|
        0 <= r < row_count && 0 <= c < column_count && 0 <= v < CELL_VALUE_COUNT && i + 1
            == #[trigger] spec_cell_var(column_count, r, c, v);
    let base = cell_base(column_count, r, c);
    assert(i == base + v);
    lemma_one_value_per_cell(solution, row_count, column_count, r, c);
    lemma_one_value_per_cell(model, row_count, column_count, r, c);
    let from_solution = first_positive(solution, base, 0);
    let from_model = first_positive(model, base, 0);
    // The flipped variable is the positive one of exactly one of the two
    // models, so the decoded values differ.
    if solution[i] > 0 {
        assert(from_solution == v);
        assert(from_model != v);
    } else {
        assert(from_model == v);
        assert(from_solution != v);
    }
    assert(decoded_cell_char(model, column_count, r, c) != decoded_cell_char(
        solution,
        column_count,
        r,
        c,
    ));
    // Different cell values make different grid texts: reparsing both texts
    // would otherwise give the same rows.
    if row_count == 0 || column_count == 0 {
        assert(row_count * column_count * 27 == 0) by (nonlinear_arith)
            requires
                row_count == 0 || column_count == 0,
        ;
        assert(false);
    }
    if decoded_grid(model, row_count, column_count) == decoded_grid(
        solution,
        row_count,
        column_count,
    ) {
        lemma_split_decoded_rows(model, column_count, row_count);
        lemma_split_decoded_rows(solution, column_count, row_count);
        let rows_of_model = Seq::new(
            row_count as nat,
            |k: int| crate::variables::decoded_row(model, column_count, k),
        );
        let rows_of_solution = Seq::new(
            row_count as nat,
            |k: int| crate::variables::decoded_row(solution, column_count, k),
        );
        assert(rows_of_model == rows_of_solution);
        assert(rows_of_model[r] == crate::variables::decoded_row(model, column_count, r));
        assert(rows_of_solution[r] == crate::variables::decoded_row(solution, column_count, r));
        assert(crate::variables::decoded_row(model, column_count, r)[c] == decoded_cell_char(
            model,
            column_count,
            r,
            c,
        ));
        assert(crate::variables::decoded_row(solution, column_count, r)[c] == decoded_cell_char(
            solution,
            column_count,
            r,
            c,
        ));
        assert(false);
    }
}

/// A refutation clause speaks against the very solution it refutes: the
/// refuted model satisfies none of its literals. A model satisfying the
/// refutation clause therefore differs from the refuted one on some assigned
/// relevant variable.
pub proof fn lemma_refutation_not_satisfied(model: Seq<i32>)
    ensures
        !clause_sat(model, refutation_of(model)),
{
    lemma_refutation_literals(model);
    assert forall|i: int| 0 <= i < refutation_of(model).len() implies !lit_sat(
        model,
        #[trigger] refutation_of(model)[i],
    ) by {
        let literal = refutation_of(model)[i];
        if literal > 0 {
            assert(model[literal - 1] < 0);
        } else {
            assert(model[-literal - 1] > 0);
        }
    }
}

} // verus!
