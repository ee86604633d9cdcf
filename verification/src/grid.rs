//! The crossword grid: a rectangular board of free cells, blocks and
//! prefilled letters, together with the enumeration of its slots.

use crate::alphabet;
use crate::slot::{Slot, MIN_LEN};
use crate::text;
use vstd::prelude::*;

verus! {

/// The character representing a block, i.e. a shaded cell.
pub const BLOCK: char = '#';

/// The character representing an empty cell.
pub const EMPTY: char = '.';

/// Whether a character may appear in a grid row.
pub open spec fn valid_cell_char(c: char) -> bool {
    c == EMPTY || c == BLOCK || alphabet::spec_contains(c)
}

/// Whether a row is valid against the expected row width.
pub open spec fn row_ok(row: Seq<char>, width: int) -> bool {
    &&& row.len() == width
    &&& forall|j: int| 0 <= j < row.len() ==> valid_cell_char(#[trigger] row[j])
}

/// Whether a sequence of rows forms a valid grid: all rows as long as the
/// first one, every character a letter, a block or an empty cell.
pub open spec fn rows_valid(rows: Seq<Seq<char>>) -> bool {
    forall|i: int| 0 <= i < rows.len() ==> row_ok(#[trigger] rows[i], rows[0].len() as int)
}

/// The index of the first row at or after `i` that fails validation.
pub open spec fn first_bad_row(rows: Seq<Seq<char>>, i: int) -> int
    decreases rows.len() - i,
{
    if i < 0 || i >= rows.len() {
        i
    } else if !row_ok(rows[i], rows[0].len() as int) {
        i
    } else {
        first_bad_row(rows, i + 1)
    }
}

/// The index of the first invalid character at or after `j` in a row.
pub open spec fn first_bad_char(row: Seq<char>, j: int) -> int
    decreases row.len() - j,
{
    if j < 0 || j >= row.len() {
        j
    } else if !valid_cell_char(row[j]) {
        j
    } else {
        first_bad_char(row, j + 1)
    }
}

/// The message reported when a row is shorter or longer than the first one.
pub open spec fn length_error_message(row: int, length: int, first_length: int) -> Seq<char> {
    "Inconsistent number of columns: Row #"@ + text::dec_str(row) + " has "@ + text::dec_str(
        length,
    ) + " columns but row #0 has "@ + text::dec_str(first_length)
}

/// The message reported when a row holds a forbidden character.
pub open spec fn value_error_message(row: int, value: char) -> Seq<char> {
    "Invalid value at row #"@ + text::dec_str(row) + ": "@ + seq![value]
}

/// The message reported for an invalid sequence of rows: the first failing
/// row is named; an inconsistent length wins over a forbidden character.
pub open spec fn validation_error_message(rows: Seq<Seq<char>>) -> Seq<char> {
    let r = first_bad_row(rows, 0);
    if rows[r].len() != rows[0].len() {
        length_error_message(r, rows[r].len() as int, rows[0].len() as int)
    } else {
        value_error_message(r, rows[r][first_bad_char(rows[r], 0)])
    }
}

/// A crossword grid.
#[derive(Debug, PartialEq)]
pub struct Grid {
    rows: Vec<String>,
}

impl Clone for Grid {
    /// Clones the grid; the copy shows the very same rows.
    fn clone(&self) -> (result: Self)
        ensures
            result@ == self@,
    {
        let mut rows: Vec<String> = Vec::new();
        let mut i: usize = 0;
        while i < self.rows.len()
            invariant
                i <= self.rows@.len(),
                rows@.len() == i,
                forall|k: int| 0 <= k < i ==> #[trigger] rows@[k]@ == self.rows@[k]@,
            decreases self.rows@.len() - i,
        {
            rows.push(self.rows[i].clone());
            i += 1;
        }
        let result = Grid { rows };
        proof {
            assert(result@ =~= self@);
        }
        result
    }
}

impl View for Grid {
    type V = Seq<Seq<char>>;

    closed spec fn view(&self) -> Seq<Seq<char>> {
        self.rows.deep_view()
    }
}

/// The index of the first newline at or after `i`, or the length if there is none.
pub open spec fn first_newline(s: Seq<char>, i: int) -> int
    decreases s.len() - i,
{
    if i < 0 || i >= s.len() {
        i
    } else if s[i] == '\n' {
        i
    } else {
        first_newline(s, i + 1)
    }
}

/// The rows obtained by splitting a text on newlines. An empty text yields
/// one empty row; a trailing newline yields a final empty row.
pub open spec fn split_lines(s: Seq<char>) -> Seq<Seq<char>>
    decreases s.len(),
{
    let k = first_newline(s, 0);
    if k < 0 || k >= s.len() {
        seq![s]
    } else {
        seq![s.take(k)] + split_lines(s.skip(k + 1))
    }
}

/// If everything at or after `i` but before `k` passes, the first failure at
/// or after `i` is the first failure at or after `k`.
proof fn lemma_first_bad_row_from(rows: Seq<Seq<char>>, i: int, k: int)
    requires
        0 <= i <= k <= rows.len(),
        forall|m: int| i <= m < k ==> row_ok(#[trigger] rows[m], rows[0].len() as int),
    ensures
        first_bad_row(rows, i) == first_bad_row(rows, k),
    decreases k - i,
{
    if i < k {
        lemma_first_bad_row_from(rows, i + 1, k);
    }
}

/// The same, for the first invalid character of a row.
proof fn lemma_first_bad_char_from(row: Seq<char>, j: int, k: int)
    requires
        0 <= j <= k <= row.len(),
        forall|m: int| j <= m < k ==> valid_cell_char(#[trigger] row[m]),
    ensures
        first_bad_char(row, j) == first_bad_char(row, k),
    decreases k - j,
{
    if j < k {
        lemma_first_bad_char_from(row, j + 1, k);
    }
}

/// A slot built in a spec from the bounds of a run.
pub open spec fn mk_slot(start: int, end: int, offset: usize, is_down: bool) -> Slot {
    Slot { start: start as usize, end: end as usize, offset, is_down }
}

/// The slots of one line (a row or a column), scanned from position `i` with
/// the current run begun at `run_start`: a run of at least [MIN_LEN] cells
/// ended by a block or by the end of the line yields a slot.
pub open spec fn line_slots(line: Seq<char>, i: int, run_start: int, offset: usize, is_down: bool)
    -> Seq<Slot>
    decreases line.len() - i,
{
    if i < 0 || i >= line.len() {
        if line.len() - run_start >= MIN_LEN {
            seq![mk_slot(run_start, line.len() as int, offset, is_down)]
        } else {
            seq![]
        }
    } else if line[i] == BLOCK {
        (if i - run_start >= MIN_LEN {
            seq![mk_slot(run_start, i, offset, is_down)]
        } else {
            seq![]
        }) + line_slots(line, i + 1, i + 1, offset, is_down)
    } else {
        line_slots(line, i + 1, run_start, offset, is_down)
    }
}

/// The cells of the `c`-th column, top to bottom.
pub open spec fn spec_column(g: Seq<Seq<char>>, c: int) -> Seq<char> {
    Seq::new(g.len(), |r: int| g[r][c])
}

/// The across slots of the first `r` rows, row by row.
pub open spec fn across_slots_upto(g: Seq<Seq<char>>, r: int) -> Seq<Slot>
    decreases r,
{
    if r <= 0 {
        seq![]
    } else {
        across_slots_upto(g, r - 1) + line_slots(g[r - 1], 0, 0, (r - 1) as usize, false)
    }
}

/// The down slots of the first `c` columns, column by column.
pub open spec fn down_slots_upto(g: Seq<Seq<char>>, c: int) -> Seq<Slot>
    decreases c,
{
    if c <= 0 {
        seq![]
    } else {
        down_slots_upto(g, c - 1) + line_slots(spec_column(g, c - 1), 0, 0, (c - 1) as usize, true)
    }
}

/// Every slot of a line scan is well formed and stays within the line.
proof fn lemma_line_slots_wf(line: Seq<char>, i: int, run_start: int, offset: usize, is_down: bool)
    requires
        0 <= run_start <= i <= line.len(),
        line.len() <= usize::MAX,
    ensures
        forall|k: int|
            0 <= k < line_slots(line, i, run_start, offset, is_down).len() ==> {
                let s = #[trigger] line_slots(line, i, run_start, offset, is_down)[k];
                &&& s.wf()
                &&& run_start <= s.start
                &&& s.end <= line.len()
                &&& s.offset == offset
                &&& s.is_down == is_down
            },
    decreases line.len() - i,
{
    let result = line_slots(line, i, run_start, offset, is_down);
    if i >= line.len() {
        if line.len() - run_start >= MIN_LEN {
            assert(result == seq![mk_slot(run_start, line.len() as int, offset, is_down)]);
            assert(result[0] == mk_slot(run_start, line.len() as int, offset, is_down));
        } else {
            assert(result == Seq::<Slot>::empty());
        }
    } else if line[i] == BLOCK {
        lemma_line_slots_wf(line, i + 1, i + 1, offset, is_down);
        let head: Seq<Slot> = if i - run_start >= MIN_LEN {
            seq![mk_slot(run_start, i, offset, is_down)]
        } else {
            seq![]
        };
        let rest = line_slots(line, i + 1, i + 1, offset, is_down);
        assert(result == head + rest);
        assert forall|k: int| 0 <= k < result.len() implies {
            let s = #[trigger] result[k];
            &&& s.wf()
            &&& run_start <= s.start
            &&& s.end <= line.len()
            &&& s.offset == offset
            &&& s.is_down == is_down
        } by {
            if k < head.len() {
                assert(result[k] == head[k]);
            } else {
                assert(result[k] == rest[k - head.len()]);
            }
        }
    } else {
        lemma_line_slots_wf(line, i + 1, run_start, offset, is_down);
        assert(result == line_slots(line, i + 1, run_start, offset, is_down));
    }
}

/// Every across slot of the first `r` rows is well formed and stays inside the grid.
proof fn lemma_across_upto_wf(g: Seq<Seq<char>>, r: int)
    requires
        rows_valid(g),
        0 <= r <= g.len(),
        g.len() <= usize::MAX,
        g.len() == 0 || g[0].len() <= usize::MAX,
    ensures
        forall|k: int|
            0 <= k < across_slots_upto(g, r).len() ==> {
                let s = #[trigger] across_slots_upto(g, r)[k];
                &&& s.wf()
                &&& !s.is_down
                &&& s.end <= (if g.len() == 0 { 0int } else { g[0].len() as int })
                &&& s.offset < r
            },
    decreases r,
{
    if r > 0 {
        lemma_across_upto_wf(g, r - 1);
        lemma_line_slots_wf(g[r - 1], 0, 0, (r - 1) as usize, false);
        let head = across_slots_upto(g, r - 1);
        let tail = line_slots(g[r - 1], 0, 0, (r - 1) as usize, false);
        assert(across_slots_upto(g, r) == head + tail);
        assert forall|k: int| 0 <= k < (head + tail).len() implies {
            let s = #[trigger] (head + tail)[k];
            &&& s.wf()
            &&& !s.is_down
            &&& s.end <= (if g.len() == 0 { 0int } else { g[0].len() as int })
            &&& s.offset < r
        } by {
            if k < head.len() {
                assert((head + tail)[k] == head[k]);
            } else {
                assert((head + tail)[k] == tail[k - head.len()]);
            }
        }
    }
}

/// Every down slot of the first `c` columns is well formed and stays inside the grid.
proof fn lemma_down_upto_wf(g: Seq<Seq<char>>, c: int)
    requires
        rows_valid(g),
        0 <= c,
        g.len() == 0 || c <= g[0].len(),
        g.len() <= usize::MAX,
        g.len() == 0 || g[0].len() <= usize::MAX,
    ensures
        forall|k: int|
            0 <= k < down_slots_upto(g, c).len() ==> {
                let s = #[trigger] down_slots_upto(g, c)[k];
                &&& s.wf()
                &&& s.is_down
                &&& s.end <= g.len()
                &&& s.offset < c
            },
    decreases c,
{
    if c > 0 {
        lemma_down_upto_wf(g, c - 1);
        lemma_line_slots_wf(spec_column(g, c - 1), 0, 0, (c - 1) as usize, true);
        let head = down_slots_upto(g, c - 1);
        let tail = line_slots(spec_column(g, c - 1), 0, 0, (c - 1) as usize, true);
        assert(down_slots_upto(g, c) == head + tail);
        assert forall|k: int| 0 <= k < (head + tail).len() implies {
            let s = #[trigger] (head + tail)[k];
            &&& s.wf()
            &&& s.is_down
            &&& s.end <= g.len()
            &&& s.offset < c
        } by {
            if k < head.len() {
                assert((head + tail)[k] == head[k]);
            } else {
                assert((head + tail)[k] == tail[k - head.len()]);
            }
        }
    }
}

/// A line whose remainder holds no block yields at most the one slot closing
/// the current run at the end of the line.
proof fn lemma_line_slots_no_block(
    line: Seq<char>,
    i: int,
    run_start: int,
    offset: usize,
    is_down: bool,
)
    requires
        0 <= run_start <= i <= line.len(),
        forall|k: int| i <= k < line.len() ==> line[k] != BLOCK,
    ensures
        line_slots(line, i, run_start, offset, is_down) == (if line.len() - run_start >= MIN_LEN {
            seq![mk_slot(run_start, line.len() as int, offset, is_down)]
        } else {
            Seq::<Slot>::empty()
        }),
    decreases line.len() - i,
{
    if i < line.len() {
        lemma_line_slots_no_block(line, i + 1, run_start, offset, is_down);
    }
}

/// A line whose remainder is all blocks yields no further slot when no run is
/// open.
proof fn lemma_line_slots_all_blocks(line: Seq<char>, i: int, offset: usize, is_down: bool)
    requires
        0 <= i <= line.len(),
        forall|k: int| i <= k < line.len() ==> line[k] == BLOCK,
    ensures
        line_slots(line, i, i, offset, is_down) == Seq::<Slot>::empty(),
    decreases line.len() - i,
{
    if i < line.len() {
        lemma_line_slots_all_blocks(line, i + 1, offset, is_down);
    }
}

/// The same, for the first newline of a text.
proof fn lemma_first_newline_from(s: Seq<char>, i: int, k: int)
    requires
        0 <= i <= k <= s.len(),
        forall|m: int| i <= m < k ==> s[m] != '\n',
    ensures
        first_newline(s, i) == first_newline(s, k),
    decreases k - i,
{
    if i < k {
        lemma_first_newline_from(s, i + 1, k);
    }
}

/// What [first_newline] finds: nothing before it is a newline, and it points
/// at a newline unless it passed the end.
proof fn lemma_first_newline_spec(s: Seq<char>, i: int)
    requires
        0 <= i <= s.len(),
    ensures
        i <= first_newline(s, i) <= s.len(),
        forall|m: int| i <= m < first_newline(s, i) ==> s[m] != '\n',
        first_newline(s, i) < s.len() ==> s[first_newline(s, i)] == '\n',
    decreases s.len() - i,
{
    if i < s.len() && s[i] != '\n' {
        lemma_first_newline_spec(s, i + 1);
    }
}

/// A text made of a single newline-free line splits into that line alone.
pub proof fn lemma_split_single_row(row: Seq<char>)
    requires
        forall|k: int| 0 <= k < row.len() ==> row[k] != '\n',
    ensures
        split_lines(row) == seq![row],
{
    lemma_first_newline_from(row, 0, row.len() as int);
    assert(first_newline(row, row.len() as int) == row.len());
}

/// Appending a newline and a newline-free row to a text appends one row to
/// its lines.
pub proof fn lemma_split_append_row(text: Seq<char>, row: Seq<char>)
    requires
        forall|k: int| 0 <= k < row.len() ==> row[k] != '\n',
    ensures
        split_lines(text + seq!['\n'] + row) == split_lines(text) + seq![row],
    decreases text.len(),
{
    let extended = text + seq!['\n'] + row;
    let k = first_newline(text, 0);
    lemma_first_newline_spec(text, 0);
    if k >= text.len() {
        // No newline inside the text: the appended one is the first.
        assert forall|m: int| 0 <= m < text.len() implies extended[m] != '\n' by {
            assert(extended[m] == text[m]);
        }
        lemma_first_newline_from(extended, 0, text.len() as int);
        assert(extended[text.len() as int] == '\n');
        assert(first_newline(extended, text.len() as int) == text.len());
        assert(extended.take(text.len() as int) =~= text);
        assert(extended.skip(text.len() as int + 1) =~= row);
        lemma_split_single_row(row);
        assert(split_lines(extended) =~= seq![text] + seq![row]);
        assert(split_lines(text) == seq![text]);
    } else {
        assert forall|m: int| 0 <= m < k implies extended[m] != '\n' by {
            assert(extended[m] == text[m]);
        }
        assert(extended[k] == text[k]);
        lemma_first_newline_from(extended, 0, k);
        assert(first_newline(extended, k) == k);
        assert(extended.take(k) =~= text.take(k));
        assert(extended.skip(k + 1) =~= text.skip(k + 1) + seq!['\n'] + row);
        lemma_split_append_row(text.skip(k + 1), row);
        assert(split_lines(extended) =~= seq![text.take(k)] + (split_lines(text.skip(k + 1))
            + seq![row]));
        assert(split_lines(text) == seq![text.take(k)] + split_lines(text.skip(k + 1)));
        assert(split_lines(extended) =~= split_lines(text) + seq![row]);
    }
}

/// Splits a text into its lines, one `String` per row.
#[verifier::loop_isolation(false)]
fn split_on_newlines(value: &str) -> (rows: Vec<String>)
    ensures
        rows.deep_view() == split_lines(value@),
{
    let n = value.unicode_len();
    let mut rows: Vec<String> = Vec::new();
    let mut start: usize = 0;
    let mut i: usize = 0;
    proof {
        assert(rows.deep_view() =~= Seq::<Seq<char>>::empty());
        assert(value@.skip(0) =~= value@);
    }
    while i < n
        invariant
            start <= i <= n,
            n == value@.len(),
            forall|m: int| start <= m < i ==> value@[m] != '\n',
            split_lines(value@) =~= rows.deep_view() + split_lines(value@.skip(start as int)),
        decreases n - i,
    {
        if value.get_char(i) == '\n' {
            let line = value.substring_char(start, i).to_owned();
            proof {
                let tail = value@.skip(start as int);
                assert forall|m: int| 0 <= m < i - start implies tail[m] != '\n' by {
                    assert(tail[m] == value@[start + m]);
                }
                lemma_first_newline_from(tail, 0, i - start);
                assert(first_newline(tail, i - start) == i - start);
                assert(tail.take(i - start) =~= value@.subrange(start as int, i as int));
                assert(tail.skip(i - start + 1) =~= value@.skip(i as int + 1));
                assert(split_lines(tail) =~= seq![line@] + split_lines(value@.skip(i as int + 1)));
            }
            rows.push(line);
            proof {
                assert(rows.deep_view() =~= rows.deep_view().take(
                    rows.deep_view().len() - 1,
                ).push(line@));
                assert(split_lines(value@) =~= rows.deep_view() + split_lines(
                    value@.skip(i as int + 1),
                ));
            }
            start = i + 1;
        }
        i += 1;
    }
    let line = value.substring_char(start, n).to_owned();
    proof {
        let tail = value@.skip(start as int);
        assert forall|m: int| 0 <= m < n - start implies tail[m] != '\n' by {
            assert(tail[m] == value@[start + m]);
        }
        lemma_first_newline_from(tail, 0, n - start);
        assert(first_newline(tail, n - start) == n - start);
        assert(tail =~= value@.subrange(start as int, n as int));
        assert(split_lines(tail) =~= seq![line@]);
    }
    rows.push(line);
    proof {
        assert(rows.deep_view() =~= rows.deep_view().take(rows.deep_view().len() - 1).push(line@));
        assert(rows.deep_view() =~= split_lines(value@));
    }
    rows
}

impl Grid {
    /// A grid is well formed when its rows passed validation.
    pub open spec fn wf(&self) -> bool {
        rows_valid(self@)
    }

    /// The number of rows.
    pub open spec fn spec_row_count(&self) -> int {
        self@.len() as int
    }

    /// The number of columns.
    pub open spec fn spec_column_count(&self) -> int {
        if self@.len() == 0 {
            0
        } else {
            self@[0].len() as int
        }
    }

    /// The character at the given position.
    pub open spec fn char_at(&self, row: int, column: int) -> char {
        self@[row][column]
    }

    /// Validates the given rows. Function returns the input rows if they are valid, otherwise it
    /// returns an error containing details about the validation failure.
    #[verifier::loop_isolation(false)]
    fn validate(rows: Vec<String>) -> (result: Result<Vec<String>, String>)
        ensures
            result is Ok <==> rows_valid(rows.deep_view()),
            result is Ok ==> result->Ok_0 == rows,
            result is Err ==> result->Err_0@ == validation_error_message(rows.deep_view()),
    {
        let ghost rows_view = rows.deep_view();
        if rows.is_empty() {
            // Trivial case, empty grid is valid
            return Ok(rows);
        }
        let first_row_length = rows[0].as_str().unicode_len();
        proof {
            assert(rows_view[0] == rows@[0]@);
        }
        let mut row_index: usize = 0;
        while row_index < rows.len()
            invariant
                rows_view == rows.deep_view(),
                rows_view.len() == rows@.len(),
                row_index <= rows@.len(),
                first_row_length == rows_view[0].len(),
                forall|m: int|
                    0 <= m < row_index ==> row_ok(#[trigger] rows_view[m], rows_view[0].len() as int),
            decreases rows@.len() - row_index,
        {
            let row = &rows[row_index];
            let row_length = row.as_str().unicode_len();
            proof {
                assert(rows_view[row_index as int] == rows@[row_index as int]@);
            }
            if row_length != first_row_length {
                let mut msg: Vec<char> = Vec::new();
                text::push_str_chars(&mut msg, "Inconsistent number of columns: Row #");
                text::push_decimal(&mut msg, row_index);
                text::push_str_chars(&mut msg, " has ");
                text::push_decimal(&mut msg, row_length);
                text::push_str_chars(&mut msg, " columns but row #0 has ");
                text::push_decimal(&mut msg, first_row_length);
                proof {
                    lemma_first_bad_row_from(rows_view, 0, row_index as int);
                    assert(first_bad_row(rows_view, row_index as int) == row_index as int);
                    assert(msg@ =~= validation_error_message(rows_view));
                }
                return Err(text::chars_to_string(&msg));
            }
            let mut j: usize = 0;
            while j < row_length
                invariant
                    rows_view == rows.deep_view(),
                    row_index < rows@.len(),
                    row == rows@[row_index as int],
                    rows_view[row_index as int] == rows@[row_index as int]@,
                    j <= row_length,
                    row_length == row@.len(),
                    forall|m: int| 0 <= m < j ==> valid_cell_char(#[trigger] row@[m]),
                decreases row_length - j,
            {
                let value = row.as_str().get_char(j);
                if value != EMPTY && value != BLOCK && !alphabet::contains(value) {
                    let mut msg: Vec<char> = Vec::new();
                    text::push_str_chars(&mut msg, "Invalid value at row #");
                    text::push_decimal(&mut msg, row_index);
                    text::push_str_chars(&mut msg, ": ");
                    msg.push(value);
                    proof {
                        lemma_first_bad_row_from(rows_view, 0, row_index as int);
                        assert(!row_ok(rows_view[row_index as int], rows_view[0].len() as int));
                        assert(first_bad_row(rows_view, row_index as int) == row_index as int);
                        lemma_first_bad_char_from(rows_view[row_index as int], 0, j as int);
                        assert(first_bad_char(rows_view[row_index as int], j as int) == j as int);
                        assert(msg@ =~= validation_error_message(rows_view));
                    }
                    return Err(text::chars_to_string(&msg));
                }
                j += 1;
            }
            row_index += 1;
        }
        Ok(rows)
    }

    /// Attempts to create a new [Grid] from given rows. Function returns the grid if given input
    /// is valid, otherwise it returns an error containing details about the validation failure.
    fn new(rows: Vec<String>) -> (result: Result<Self, String>)
        ensures
            result is Ok <==> rows_valid(rows.deep_view()),
            result is Ok ==> result->Ok_0@ == rows.deep_view() && result->Ok_0.wf(),
            result is Err ==> result->Err_0@ == validation_error_message(rows.deep_view()),
    {
        match Grid::validate(rows) {
            Ok(validated_rows) => Ok(Grid { rows: validated_rows }),
            Err(error) => Err(error),
        }
    }

    /// Attempts to build a [Grid] from the given string. Rows are separated by newlines. Function
    /// returns the grid if given input is valid, otherwise it returns an error containing details
    /// about the validation failure.
    pub fn from(value: &str) -> (result: Result<Self, String>)
        ensures
            result is Ok <==> rows_valid(split_lines(value@)),
            result is Ok ==> result->Ok_0@ == split_lines(value@) && result->Ok_0.wf(),
            result is Err ==> result->Err_0@ == validation_error_message(split_lines(value@)),
    {
        let rows = split_on_newlines(value);
        Grid::new(rows)
    }

    /// Returns the number of rows of the grid.
    pub fn row_count(&self) -> (count: usize)
        ensures
            count == self.spec_row_count(),
    {
        self.rows.len()
    }

    /// Returns the number of columns of the grid.
    pub fn column_count(&self) -> (count: usize)
        requires
            self.wf(),
        ensures
            count == self.spec_column_count(),
    {
        if self.rows.is_empty() {
            0
        } else {
            proof {
                assert(self@[0] == self.rows@[0]@);
            }
            self.rows[0].as_str().unicode_len()
        }
    }

    /// The across slots of this grid, row by row.
    pub open spec fn across_slots_spec(&self) -> Seq<Slot> {
        across_slots_upto(self@, self@.len() as int)
    }

    /// The down slots of this grid, column by column.
    pub open spec fn down_slots_spec(&self) -> Seq<Slot> {
        down_slots_upto(self@, self.spec_column_count())
    }

    /// The slots of this grid: all across slots first, then all down slots.
    pub open spec fn slots_spec(&self) -> Seq<Slot> {
        self.across_slots_spec() + self.down_slots_spec()
    }

    /// Returns the slots of this grid.
    pub fn slots(&self) -> (slots: Vec<Slot>)
        requires
            self.wf(),
        ensures
            slots@ == self.slots_spec(),
    {
        let mut slots = self.across_slots();
        let mut down = self.down_slots();
        slots.append(&mut down);
        slots
    }

    /// Returns the number of slots.
    pub fn slot_count(&self) -> (count: usize)
        requires
            self.wf(),
        ensures
            count == self.slots_spec().len(),
    {
        self.slots().len()
    }

    /// Computes the across slots.
    #[verifier::loop_isolation(false)]
    fn across_slots(&self) -> (slots: Vec<Slot>)
        requires
            self.wf(),
        ensures
            slots@ == self.across_slots_spec(),
    {
        let mut slots: Vec<Slot> = Vec::new();
        let row_count = self.row_count();
        let column_count = self.column_count();
        proof {
            assert(slots@ =~= across_slots_upto(self@, 0));
        }
        let mut row: usize = 0;
        while row < row_count
            invariant
                row <= row_count,
                slots@ =~= across_slots_upto(self@, row as int),
            decreases row_count - row,
        {
            let ghost line = self@[row as int];
            proof {
                assert(line.len() == column_count);
            }
            let mut column_start: usize = 0;
            let mut column: usize = 0;
            while column < column_count
                invariant
                    column_start <= column <= column_count,
                    row < row_count,
                    slots@ + line_slots(line, column as int, column_start as int, row, false)
                        =~= across_slots_upto(self@, row as int) + line_slots(line, 0, 0, row, false),
                decreases column_count - column,
            {
                if self.letter_at(row, column) == BLOCK {
                    if column - column_start >= MIN_LEN {
                        slots.push(Slot::across(column_start, column, row));
                    }
                    column_start = column + 1;
                }
                column += 1;
            }
            if column_count - column_start >= MIN_LEN {
                slots.push(Slot::across(column_start, column_count, row));
            }
            proof {
                assert(slots@ =~= across_slots_upto(self@, row as int + 1));
            }
            row += 1;
        }
        slots
    }

    /// Computes the down slots.
    #[verifier::loop_isolation(false)]
    fn down_slots(&self) -> (slots: Vec<Slot>)
        requires
            self.wf(),
        ensures
            slots@ == self.down_slots_spec(),
    {
        let mut slots: Vec<Slot> = Vec::new();
        let row_count = self.row_count();
        let column_count = self.column_count();
        proof {
            assert(slots@ =~= down_slots_upto(self@, 0));
        }
        let mut column: usize = 0;
        while column < column_count
            invariant
                column <= column_count,
                slots@ =~= down_slots_upto(self@, column as int),
            decreases column_count - column,
        {
            let ghost line = spec_column(self@, column as int);
            proof {
                assert(line.len() == row_count);
            }
            let mut row_start: usize = 0;
            let mut row: usize = 0;
            while row < row_count
                invariant
                    row_start <= row <= row_count,
                    column < column_count,
                    slots@ + line_slots(line, row as int, row_start as int, column, true)
                        =~= down_slots_upto(self@, column as int) + line_slots(line, 0, 0, column, true),
                decreases row_count - row,
            {
                if self.letter_at(row, column) == BLOCK {
                    proof {
                        assert(line[row as int] == self@[row as int][column as int]);
                    }
                    if row - row_start >= MIN_LEN {
                        slots.push(Slot::down(row_start, row, column));
                    }
                    row_start = row + 1;
                } else {
                    proof {
                        assert(line[row as int] == self@[row as int][column as int]);
                    }
                }
                row += 1;
            }
            if row_count - row_start >= MIN_LEN {
                slots.push(Slot::down(row_start, row_count, column));
            }
            proof {
                assert(slots@ =~= down_slots_upto(self@, column as int + 1));
            }
            column += 1;
        }
        slots
    }

    /// LAW: a grid of free cells only has one across slot per row - spanning
    /// the whole row - when the rows are at least [MIN_LEN] long, and one down
    /// slot per column - spanning the whole column - when the columns are; no
    /// slot otherwise.
    pub proof fn lemma_all_free_grid_slots(&self)
        requires
            self.wf(),
            forall|r: int, c: int|
                0 <= r < self.spec_row_count() && 0 <= c < self.spec_column_count()
                    ==> #[trigger] self.char_at(r, c) == EMPTY,
        ensures
            self.spec_column_count() >= MIN_LEN ==> self.across_slots_spec() == Seq::new(
                self.spec_row_count() as nat,
                |r: int| mk_slot(0, self.spec_column_count(), r as usize, false),
            ),
            self.spec_column_count() < MIN_LEN ==> self.across_slots_spec()
                == Seq::<Slot>::empty(),
            self.spec_row_count() >= MIN_LEN ==> self.down_slots_spec() == Seq::new(
                self.spec_column_count() as nat,
                |c: int| mk_slot(0, self.spec_row_count(), c as usize, true),
            ),
            self.spec_row_count() < MIN_LEN ==> self.down_slots_spec() == Seq::<Slot>::empty(),
    {
        self.lemma_all_free_across_upto(self.spec_row_count());
        self.lemma_all_free_down_upto(self.spec_column_count());
    }

    /// The across half of [Self::lemma_all_free_grid_slots], by induction on
    /// the rows.
    proof fn lemma_all_free_across_upto(&self, r: int)
        requires
            self.wf(),
            0 <= r <= self.spec_row_count(),
            forall|r: int, c: int|
                0 <= r < self.spec_row_count() && 0 <= c < self.spec_column_count()
                    ==> #[trigger] self.char_at(r, c) == EMPTY,
        ensures
            self.spec_column_count() >= MIN_LEN ==> across_slots_upto(self@, r) =~= Seq::new(
                r as nat,
                |k: int| mk_slot(0, self.spec_column_count(), k as usize, false),
            ),
            self.spec_column_count() < MIN_LEN ==> across_slots_upto(self@, r)
                =~= Seq::<Slot>::empty(),
        decreases r,
    {
        if r > 0 {
            self.lemma_all_free_across_upto(r - 1);
            let line = self@[r - 1];
            assert(row_ok(line, self@[0].len() as int));
            assert forall|k: int| 0 <= k < line.len() implies line[k] != BLOCK by {
                assert(self.char_at(r - 1, k) == EMPTY);
            }
            lemma_line_slots_no_block(line, 0, 0, (r - 1) as usize, false);
        }
    }

    /// The down half of [Self::lemma_all_free_grid_slots], by induction on
    /// the columns.
    proof fn lemma_all_free_down_upto(&self, c: int)
        requires
            self.wf(),
            0 <= c <= self.spec_column_count(),
            forall|r: int, c: int|
                0 <= r < self.spec_row_count() && 0 <= c < self.spec_column_count()
                    ==> #[trigger] self.char_at(r, c) == EMPTY,
        ensures
            self.spec_row_count() >= MIN_LEN ==> down_slots_upto(self@, c) =~= Seq::new(
                c as nat,
                |k: int| mk_slot(0, self.spec_row_count(), k as usize, true),
            ),
            self.spec_row_count() < MIN_LEN ==> down_slots_upto(self@, c) =~= Seq::<Slot>::empty(),
        decreases c,
    {
        if c > 0 {
            self.lemma_all_free_down_upto(c - 1);
            let line = spec_column(self@, c - 1);
            assert forall|k: int| 0 <= k < line.len() implies line[k] != BLOCK by {
                assert(line[k] == self.char_at(k, c - 1));
                assert(self.char_at(k, c - 1) == EMPTY);
            }
            lemma_line_slots_no_block(line, 0, 0, (c - 1) as usize, true);
        }
    }

    /// LAW: a grid of blocks only has no slot at all.
    pub proof fn lemma_all_blocks_grid_slots(&self)
        requires
            self.wf(),
            forall|r: int, c: int|
                0 <= r < self.spec_row_count() && 0 <= c < self.spec_column_count()
                    ==> #[trigger] self.char_at(r, c) == BLOCK,
        ensures
            self.slots_spec() == Seq::<Slot>::empty(),
    {
        self.lemma_all_blocks_across_upto(self.spec_row_count());
        self.lemma_all_blocks_down_upto(self.spec_column_count());
        assert(self.slots_spec() =~= Seq::<Slot>::empty());
    }

    /// The across half of [Self::lemma_all_blocks_grid_slots].
    proof fn lemma_all_blocks_across_upto(&self, r: int)
        requires
            self.wf(),
            0 <= r <= self.spec_row_count(),
            forall|r: int, c: int|
                0 <= r < self.spec_row_count() && 0 <= c < self.spec_column_count()
                    ==> #[trigger] self.char_at(r, c) == BLOCK,
        ensures
            across_slots_upto(self@, r) =~= Seq::<Slot>::empty(),
        decreases r,
    {
        if r > 0 {
            self.lemma_all_blocks_across_upto(r - 1);
            let line = self@[r - 1];
            assert(row_ok(line, self@[0].len() as int));
            assert forall|k: int| 0 <= k < line.len() implies line[k] == BLOCK by {
                assert(self.char_at(r - 1, k) == BLOCK);
            }
            lemma_line_slots_all_blocks(line, 0, (r - 1) as usize, false);
        }
    }

    /// The down half of [Self::lemma_all_blocks_grid_slots].
    proof fn lemma_all_blocks_down_upto(&self, c: int)
        requires
            self.wf(),
            0 <= c <= self.spec_column_count(),
            forall|r: int, c: int|
                0 <= r < self.spec_row_count() && 0 <= c < self.spec_column_count()
                    ==> #[trigger] self.char_at(r, c) == BLOCK,
        ensures
            down_slots_upto(self@, c) =~= Seq::<Slot>::empty(),
        decreases c,
    {
        if c > 0 {
            self.lemma_all_blocks_down_upto(c - 1);
            let line = spec_column(self@, c - 1);
            assert forall|k: int| 0 <= k < line.len() implies line[k] == BLOCK by {
                assert(line[k] == self.char_at(k, c - 1));
                assert(self.char_at(k, c - 1) == BLOCK);
            }
            lemma_line_slots_all_blocks(line, 0, (c - 1) as usize, true);
        }
    }

    /// Every slot of a well-formed grid is well formed: at least [MIN_LEN]
    /// cells long, and all its cells inside the grid.
    pub proof fn lemma_slots_wf(&self)
        requires
            self.wf(),
            self.spec_row_count() <= usize::MAX,
            self.spec_column_count() <= usize::MAX,
        ensures
            forall|k: int|
                0 <= k < self.slots_spec().len() ==> {
                    let s = #[trigger] self.slots_spec()[k];
                    &&& s.wf()
                    &&& (if s.is_down {
                        s.end <= self.spec_row_count() && s.offset < self.spec_column_count()
                    } else {
                        s.end <= self.spec_column_count() && s.offset < self.spec_row_count()
                    })
                },
    {
        lemma_across_upto_wf(self@, self@.len() as int);
        lemma_down_upto_wf(self@, self.spec_column_count());
        let head = self.across_slots_spec();
        let tail = self.down_slots_spec();
        assert forall|k: int| 0 <= k < self.slots_spec().len() implies {
            let s = #[trigger] self.slots_spec()[k];
            &&& s.wf()
            &&& (if s.is_down {
                s.end <= self.spec_row_count() && s.offset < self.spec_column_count()
            } else {
                s.end <= self.spec_column_count() && s.offset < self.spec_row_count()
            })
        } by {
            if k < head.len() {
                assert(self.slots_spec()[k] == head[k]);
            } else {
                assert(self.slots_spec()[k] == tail[k - head.len()]);
            }
        }
    }

    /// Returns the letter at given position.
    /// Special character `#` is returned if the cell contains a block.
    /// Special character `.` is returned if the cell contains no value.
    pub fn letter_at(&self, row: usize, column: usize) -> (letter: char)
        requires
            self.wf(),
            row < self.spec_row_count(),
            column < self.spec_column_count(),
        ensures
            letter == self.char_at(row as int, column as int),
    {
        proof {
            assert(self@[row as int] == self.rows@[row as int]@);
            assert(row_ok(self@[row as int], self@[0].len() as int));
        }
        self.rows[row].as_str().get_char(column)
    }
}

} // verus!
