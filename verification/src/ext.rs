//! The table itself: a rectangular grid of text cells with
//! bounds-checked structural mutation. Every row always has the same
//! number of columns, and a table never shrinks below one row and one
//! column; operations that would break either rule fail and leave the
//! table unchanged.

use vstd::prelude::*;
use vstd::string::StringExecFns;

use crate::text::dec_rep;
use crate::text::usize_to_string;

verus! {

/// The two failure kinds: a semantic precondition broke (a zero
/// dimension, a zero count, an unknown alignment token, deleting the
/// last row or column), or a position was out of bounds.
#[derive(Debug)]
pub enum ExtError {
    ValueError(String),
    IndexError(String),
}

impl ExtError {
    /// The message prefixed with the error kind, for display.
    pub fn describe(&self) -> (r: String)
        ensures
            self matches ExtError::ValueError(m) ==> r@ == "ValueError: "@ + m@,
            self matches ExtError::IndexError(m) ==> r@ == "IndexError: "@ + m@,
    {
        match self {
            ExtError::ValueError(m) => {
                let mut r = String::from_str("ValueError: ");
                r.append(m.as_str());
                r
            },
            ExtError::IndexError(m) => {
                let mut r = String::from_str("IndexError: ");
                r.append(m.as_str());
                r
            },
        }
    }
}

/// Every row of the grid is as long as the first one.
pub open spec fn rect(g: Seq<Seq<Seq<char>>>) -> bool {
    forall|i: int| 0 <= i < g.len() ==> #[trigger] g[i].len() == g[0].len()
}

/// A well-formed table: at least one row, at least one column, and
/// rectangular.
pub open spec fn table_wf(g: Seq<Seq<Seq<char>>>) -> bool {
    &&& g.len() >= 1
    &&& g[0].len() >= 1
    &&& rect(g)
}

/// A row of `width` empty cells.
pub open spec fn empty_row(width: nat) -> Seq<Seq<char>> {
    Seq::new(width, |j: int| Seq::<char>::empty())
}

/// `rows` rows of `width` empty cells each.
pub open spec fn empty_grid(rows: nat, width: nat) -> Seq<Seq<Seq<char>>> {
    Seq::new(rows, |i: int| empty_row(width))
}

/// Message of the error reported when a parsed grid is not
/// rectangular: the offending row, its length, and the expected one.
pub open spec fn parse_mismatch_msg(i: nat, got: nat, expected: nat) -> Seq<char> {
    "Row "@ + dec_rep(i) + " has "@ + dec_rep(got) + " column, expected "@ + dec_rep(expected)
        + "."@
}

/// Message of the error reported for an out-of-bounds row index.
pub open spec fn row_oob_msg(i: nat) -> Seq<char> {
    "Row index "@ + dec_rep(i) + " is out of bounds."@
}

/// Message of the error reported for an out-of-bounds column index.
pub open spec fn col_oob_msg(i: nat) -> Seq<char> {
    "Column index "@ + dec_rep(i) + " is out of bounds."@
}

fn parse_mismatch_msg_exec(i: usize, got: usize, expected: usize) -> (r: String)
    ensures
        r@ == parse_mismatch_msg(i as nat, got as nat, expected as nat),
{
    let mut r = String::from_str("Row ");
    r.append(usize_to_string(i).as_str());
    r.append(" has ");
    r.append(usize_to_string(got).as_str());
    r.append(" column, expected ");
    r.append(usize_to_string(expected).as_str());
    r.append(".");
    r
}

fn row_oob_msg_exec(i: usize) -> (r: String)
    ensures
        r@ == row_oob_msg(i as nat),
{
    let mut r = String::from_str("Row index ");
    r.append(usize_to_string(i).as_str());
    r.append(" is out of bounds.");
    r
}

fn col_oob_msg_exec(i: usize) -> (r: String)
    ensures
        r@ == col_oob_msg(i as nat),
{
    let mut r = String::from_str("Column index ");
    r.append(usize_to_string(i).as_str());
    r.append(" is out of bounds.");
    r
}

/// Pointwise description of the abstract value of a row of cells.
pub proof fn lemma_row_view(v: Vec<String>)
    ensures
        v.deep_view().len() == v@.len(),
        forall|j: int| 0 <= j < v@.len() ==> #[trigger] v.deep_view()[j] == v@[j]@,
{
}

/// Pointwise description of the abstract value of a grid of cells.
pub proof fn lemma_grid_view(v: Vec<Vec<String>>)
    ensures
        v.deep_view().len() == v@.len(),
        forall|i: int| 0 <= i < v@.len() ==> #[trigger] v.deep_view()[i] == v@[i].deep_view(),
        forall|i: int| 0 <= i < v@.len() ==> #[trigger] v.deep_view()[i].len() == v@[i]@.len(),
        forall|i: int, j: int|
            0 <= i < v@.len() && 0 <= j < v@[i]@.len() ==> #[trigger] v.deep_view()[i][j]
                == v@[i]@[j]@,
{
    assert forall|i: int, j: int| 0 <= i < v@.len() && 0 <= j < v@[i]@.len() implies #[trigger] v.deep_view()[i][j] == v@[i]@[j]@ by {
        lemma_row_view(v@[i]);
    }
}

/// The column-major reinterpretation of a grid: output row `j` holds
/// the cells of input column `j`, in row order. An empty grid
/// transposes to an empty grid.
pub open spec fn transpose(g: Seq<Seq<Seq<char>>>) -> Seq<Seq<Seq<char>>> {
    if g.len() == 0 {
        Seq::empty()
    } else {
        Seq::new(g[0].len(), |j: int| Seq::new(g.len(), |i: int| g[i][j]))
    }
}

/// `n` held into the closed interval from `lo` to `hi` (`hi` winning
/// when the interval is empty, as taking the minimum last does).
pub open spec fn spec_clamp(n: int, lo: int, hi: int) -> int {
    let m = if n > lo {
        n
    } else {
        lo
    };
    if m < hi {
        m
    } else {
        hi
    }
}

/// Clamps `number` into the range from `lo` to `hi`.
pub fn Clamp(number: usize, lo: usize, hi: usize) -> (r: usize)
    ensures
        r == spec_clamp(number as int, lo as int, hi as int),
{
    let m = if number > lo {
        number
    } else {
        lo
    };
    if m < hi {
        m
    } else {
        hi
    }
}

fn make_empty_row(width: usize) -> (r: Vec<String>)
    ensures
        r.deep_view() == empty_row(width as nat),
{
    let mut r: Vec<String> = Vec::new();
    let mut j: usize = 0;
    while j < width
        invariant
            j <= width,
            r@.len() == j,
            forall|k: int| 0 <= k < j ==> (#[trigger] r@[k])@ =~= Seq::<char>::empty(),
        decreases width - j,
    {
        r.push(String::new());
        j += 1;
    }
    proof {
        lemma_row_view(r);
        assert(r.deep_view() =~= empty_row(width as nat));
    }
    r
}

/// Builds the transpose of a rectangular grid of cells.
pub fn Zip(data: &Vec<Vec<String>>) -> (r: Vec<Vec<String>>)
    requires
        rect(data.deep_view()),
    ensures
        r.deep_view() == transpose(data.deep_view()),
{
    proof {
        lemma_grid_view(*data);
    }
    let ghost g = data.deep_view();
    let mut r: Vec<Vec<String>> = Vec::new();
    if data.len() == 0 {
        proof {
            assert(r.deep_view() =~= transpose(g));
        }
        return r;
    }
    let width = data[0].len();
    let mut j: usize = 0;
    while j < width
        invariant
            j <= width,
            g == data.deep_view(),
            rect(g),
            g.len() == data@.len() > 0,
            width == g[0].len(),
            r@.len() == j,
            forall|k: int| 0 <= k < j ==> (#[trigger] r@[k]).deep_view() == transpose(g)[k],
        decreases width - j,
    {
        let mut col: Vec<String> = Vec::new();
        let mut i: usize = 0;
        while i < data.len()
            invariant
                i <= data@.len(),
                g == data.deep_view(),
                rect(g),
                g.len() == data@.len() > 0,
                j < width == g[0].len(),
                col@.len() == i,
                forall|m: int| 0 <= m < i ==> (#[trigger] col@[m])@ == g[m][j as int],
            decreases data@.len() - i,
        {
            proof {
                lemma_grid_view(*data);
                assert(g[i as int].len() == g[0].len());
            }
            col.push(data[i][j].clone());
            i += 1;
        }
        proof {
            lemma_row_view(col);
            assert(col.deep_view() =~~= transpose(g)[j as int]);
        }
        r.push(col);
        j += 1;
    }
    proof {
        lemma_grid_view(r);
        assert(r.deep_view() =~~= transpose(g));
    }
    r
}

/// The least row index whose length differs from the first row's,
/// scanning from `i`; the row count when every row agrees.
pub open spec fn first_mismatch_from(g: Seq<Seq<Seq<char>>>, i: int) -> int
    decreases g.len() - i when 0 <= i <= g.len()
{
    if i >= g.len() {
        g.len() as int
    } else if g[i].len() != g[0].len() {
        i
    } else {
        first_mismatch_from(g, i + 1)
    }
}

/// The least row index whose length differs from the first row's.
pub open spec fn first_mismatch(g: Seq<Seq<Seq<char>>>) -> int {
    first_mismatch_from(g, 0)
}

/// Scanning for a mismatch may start past any prefix known to agree.
proof fn lemma_first_mismatch_skip(g: Seq<Seq<Seq<char>>>, i: int)
    requires
        0 <= i <= g.len(),
        forall|k: int| 0 <= k < i ==> #[trigger] g[k].len() == g[0].len(),
    ensures
        first_mismatch(g) == first_mismatch_from(g, i),
    decreases i,
{
    if i > 0 {
        lemma_first_mismatch_skip(g, i - 1);
    }
}

/// The structural invariant every table keeps: since each constructor
/// establishes `wf` and every mutation that succeeds or fails
/// preserves it, after any sequence of insertions and deletions the
/// table still has at least one row, at least one column, and every
/// row exactly as long as the first.
pub proof fn lemma_wf_dimensions(t: &Table)
    requires
        t.wf(),
    ensures
        t@.len() >= 1,
        t@[0].len() >= 1,
        forall|i: int| 0 <= i < t@.len() ==> #[trigger] t@[i].len() == t@[0].len(),
{
}

/// A rectangular grid of text cells. The abstract value is the grid
/// of cell contents, row by row.
#[derive(Debug)]
pub struct Table {
    pub(crate) TableVec: Vec<Vec<String>>,
}

/// Within the crate, the abstract value of a table is the deep view
/// of its cell storage.
pub(crate) proof fn lemma_table_view(t: &Table)
    ensures
        t@ == t.TableVec.deep_view(),
{
}

impl View for Table {
    type V = Seq<Seq<Seq<char>>>;

    closed spec fn view(&self) -> Seq<Seq<Seq<char>>> {
        self.TableVec.deep_view()
    }
}

impl Table {
    /// The table invariant: non-degenerate and rectangular.
    pub open spec fn wf(&self) -> bool {
        table_wf(self@)
    }

    /// Constructs a `row` by `column` table of empty cells. Either
    /// dimension being zero is rejected.
    pub fn Table(row: usize, column: usize) -> (r: Result<Table, ExtError>)
        ensures
            row >= 1 && column >= 1 ==> (r matches Ok(t) && t@ == empty_grid(
                row as nat,
                column as nat,
            ) && t.wf()),
            row == 0 && column == 0 ==> (r matches Err(e) && e matches ExtError::ValueError(m)
                && m@ == "Cannot create a table with 0 cells."@),
            row >= 1 && column == 0 ==> (r matches Err(e) && e matches ExtError::ValueError(m)
                && m@ == "Cannot create a table with 0 columns."@),
            row == 0 && column >= 1 ==> (r matches Err(e) && e matches ExtError::ValueError(m)
                && m@ == "Cannot create a table with 0 rows."@),
    {
        if row < 1 && column < 1 {
            return Err(
                ExtError::ValueError(String::from_str("Cannot create a table with 0 cells.")),
            );
        } else if column == 0 {
            return Err(
                ExtError::ValueError(String::from_str("Cannot create a table with 0 columns.")),
            );
        } else if row == 0 {
            return Err(
                ExtError::ValueError(String::from_str("Cannot create a table with 0 rows.")),
            );
        }
        let mut grid: Vec<Vec<String>> = Vec::new();
        let mut i: usize = 0;
        while i < row
            invariant
                i <= row,
                column >= 1,
                grid@.len() == i,
                forall|k: int| 0 <= k < i ==> (#[trigger] grid@[k]).deep_view() == empty_row(
                    column as nat,
                ),
            decreases row - i,
        {
            let new_row = make_empty_row(column);
            grid.push(new_row);
            i += 1;
        }
        let t = Table { TableVec: grid };
        proof {
            lemma_grid_view(t.TableVec);
            assert(t@ =~= empty_grid(row as nat, column as nat));
        }
        Ok(t)
    }

    /// The number of rows.
    pub fn GetLength(&self) -> (r: usize)
        ensures
            r == self@.len(),
    {
        self.TableVec.len()
    }

    /// The number of columns, which rectangularity makes the same for
    /// every row.
    pub fn GetWidth(&self) -> (r: usize)
        requires
            self.wf(),
        ensures
            r == self@[0].len(),
    {
        self.TableVec[0].len()
    }

    /// The text in the cell at `row`, `column`.
    pub fn Get(&self, row: usize, column: usize) -> (r: Result<String, ExtError>)
        requires
            self.wf(),
        ensures
            row < self@.len() && column < self@[0].len() ==> (r matches Ok(s) && s@
                == self@[row as int][column as int]),
            row >= self@.len() ==> (r matches Err(e) && e matches ExtError::IndexError(m) && m@
                == row_oob_msg(row as nat)),
            row < self@.len() && column >= self@[0].len() ==> (r matches Err(e) && e matches
                ExtError::IndexError(m) && m@ == col_oob_msg(column as nat)),
    {
        proof {
            lemma_grid_view(self.TableVec);
        }
        if row >= self.TableVec.len() {
            return Err(ExtError::IndexError(row_oob_msg_exec(row)));
        }
        proof {
            assert(self@[row as int].len() == self@[0].len());
            assert(self@[row as int].len() == self.TableVec@[row as int]@.len());
        }
        if column >= self.TableVec[row].len() {
            return Err(ExtError::IndexError(col_oob_msg_exec(column)));
        }
        Ok(self.TableVec[row][column].clone())
    }

    /// Overwrites the cell at `row`, `column`.
    pub fn SetCell(&mut self, value: String, row: usize, column: usize) -> (r: Result<(), ExtError>)
        requires
            old(self).wf(),
        ensures
            final(self).wf(),
            row < old(self)@.len() && column < old(self)@[0].len() ==> (r matches Ok(u)
                && final(self)@ == old(self)@.update(
                row as int,
                old(self)@[row as int].update(column as int, value@),
            )),
            row >= old(self)@.len() ==> (r matches Err(e) && e matches ExtError::IndexError(m)
                && m@ == row_oob_msg(row as nat) && final(self)@ == old(self)@),
            row < old(self)@.len() && column >= old(self)@[0].len() ==> (r matches Err(e)
                && e matches ExtError::IndexError(m) && m@ == col_oob_msg(column as nat)
                && final(self)@ == old(self)@),
    {
        proof {
            lemma_grid_view(self.TableVec);
        }
        if row >= self.TableVec.len() {
            return Err(ExtError::IndexError(row_oob_msg_exec(row)));
        }
        proof {
            assert(self@[row as int].len() == self@[0].len());
            assert(self@[row as int].len() == self.TableVec@[row as int]@.len());
        }
        if column >= self.TableVec[row].len() {
            return Err(ExtError::IndexError(col_oob_msg_exec(column)));
        }
        self.TableVec[row][column] = value;
        proof {
            lemma_grid_view(old(self).TableVec);
            lemma_grid_view(self.TableVec);
            assert(self@ =~~= old(self)@.update(
                row as int,
                old(self)@[row as int].update(column as int, value@),
            ));
        }
        Ok(())
    }

    /// A copy of the row at `index`.
    pub fn GetRow(&self, index: usize) -> (r: Result<Vec<String>, ExtError>)
        requires
            self.wf(),
        ensures
            index < self@.len() ==> (r matches Ok(v) && v.deep_view() == self@[index as int]),
            index >= self@.len() ==> (r matches Err(e) && e matches ExtError::IndexError(m) && m@
                == row_oob_msg(index as nat)),
    {
        if index >= self.TableVec.len() {
            return Err(ExtError::IndexError(row_oob_msg_exec(index)));
        }
        let r = self.TableVec[index].clone();
        proof {
            lemma_grid_view(self.TableVec);
            lemma_row_view(r);
            lemma_row_view(self.TableVec@[index as int]);
            assert(r.deep_view() =~~= self@[index as int]);
        }
        Ok(r)
    }

    /// A copy of the column at `index`, in row order, taken from the
    /// transposed grid.
    pub fn GetColumn(&self, index: usize) -> (r: Result<Vec<String>, ExtError>)
        requires
            self.wf(),
        ensures
            index < self@[0].len() ==> (r matches Ok(v) && v.deep_view() == transpose(
                self@,
            )[index as int]),
            index >= self@[0].len() ==> (r matches Err(e) && e matches ExtError::IndexError(m)
                && m@ == col_oob_msg(index as nat)),
    {
        let mut t = Zip(&self.TableVec);
        proof {
            lemma_grid_view(t);
        }
        if index >= t.len() {
            return Err(ExtError::IndexError(col_oob_msg_exec(index)));
        }
        let v = t.remove(index);
        Ok(v)
    }

    /// Adopts a pre-built grid as a table, after checking that it has
    /// at least one row, at least one column, and uniform row lengths.
    pub fn Parse(table: Vec<Vec<String>>) -> (r: Result<Table, ExtError>)
        ensures
            ({
                let g = table.deep_view();
                &&& (g.len() == 0 ==> (r matches Err(e) && e matches ExtError::ValueError(m) && m@
                    == "Cannot create a table with 0 rows."@))
                &&& (g.len() > 0 && g[0].len() == 0 ==> (r matches Err(e) && e matches
                    ExtError::ValueError(m) && m@ == "Cannot create a table with 0 columns."@))
                &&& (g.len() > 0 && g[0].len() > 0 && rect(g) ==> (r matches Ok(t) && t@ == g
                    && t.wf()))
                &&& (g.len() > 0 && g[0].len() > 0 && !rect(g) ==> (r matches Err(e) && e matches
                    ExtError::ValueError(m) && m@ == parse_mismatch_msg(
                    first_mismatch(g) as nat,
                    g[first_mismatch(g)].len(),
                    g[0].len(),
                )))
            }),
    {
        proof {
            lemma_grid_view(table);
        }
        let ghost g = table.deep_view();
        if table.is_empty() {
            return Err(
                ExtError::ValueError(String::from_str("Cannot create a table with 0 rows.")),
            );
        }
        let number_of_columns = table[0].len();
        if number_of_columns == 0 {
            return Err(
                ExtError::ValueError(String::from_str("Cannot create a table with 0 columns.")),
            );
        }
        let mut i: usize = 0;
        while i < table.len()
            invariant
                i <= table@.len(),
                g == table.deep_view(),
                g.len() == table@.len() > 0,
                number_of_columns == g[0].len() > 0,
                forall|k: int| 0 <= k < i ==> #[trigger] g[k].len() == g[0].len(),
            decreases table@.len() - i,
        {
            proof {
                lemma_grid_view(table);
            }
            if table[i].len() != number_of_columns {
                proof {
                    lemma_first_mismatch_skip(g, i as int);
                    assert(first_mismatch(g) == i);
                    assert(!rect(g));
                }
                return Err(
                    ExtError::ValueError(
                        parse_mismatch_msg_exec(i, table[i].len(), number_of_columns),
                    ),
                );
            }
            i += 1;
        }
        let t = Table { TableVec: table };
        Ok(t)
    }

    /// Inserts `count` rows of empty cells at `index`, which is
    /// clamped into the valid insertion range, so the new rows stand
    /// consecutively from the clamped position.
    pub fn AddRow(&mut self, index: usize, count: u32) -> (r: Result<(), ExtError>)
        requires
            old(self).wf(),
        ensures
            final(self).wf(),
            count == 0 ==> (r matches Err(e) && e matches ExtError::ValueError(m) && m@
                == "count must be more than 0."@ && final(self)@ == old(self)@),
            count >= 1 ==> (r matches Ok(u) && final(self)@ == ({
                let k = spec_clamp(index as int, 0, old(self)@.len() as int);
                old(self)@.subrange(0, k) + empty_grid(count as nat, old(self)@[0].len())
                    + old(self)@.subrange(k, old(self)@.len() as int)
            })),
    {
        if count < 1 {
            return Err(ExtError::ValueError(String::from_str("count must be more than 0.")));
        }
        let width = self.GetWidth();
        let k = Clamp(index, 0, self.GetLength());
        let ghost gold = old(self)@;
        let mut t: u32 = 0;
        while t < count
            invariant
                t <= count,
                k <= gold.len(),
                width == gold[0].len(),
                self@ == gold.subrange(0, k as int) + empty_grid(t as nat, width as nat)
                    + gold.subrange(k as int, gold.len() as int),
                self.TableVec@.len() == gold.len() + t,
            decreases count - t,
        {
            let ghost prev_vec = self.TableVec;
            let new_row = make_empty_row(width);
            self.TableVec.insert(k, new_row);
            proof {
                lemma_grid_view(prev_vec);
                lemma_grid_view(self.TableVec);
                assert(self@ =~~= prev_vec.deep_view().insert(k as int, empty_row(width as nat)));
                assert(self@ =~~= gold.subrange(0, k as int) + empty_grid(
                    (t + 1) as nat,
                    width as nat,
                ) + gold.subrange(k as int, gold.len() as int));
            }
            t += 1;
        }
        proof {
            assert(final(self).wf());
        }
        Ok(())
    }

    /// Inserts `count` columns of empty cells at `index` in every
    /// row. An index past the current width is an error.
    pub fn AddColumn(&mut self, index: usize, count: u32) -> (r: Result<(), ExtError>)
        requires
            old(self).wf(),
        ensures
            final(self).wf(),
            count == 0 ==> (r matches Err(e) && e matches ExtError::ValueError(m) && m@
                == "count must be more than 0."@ && final(self)@ == old(self)@),
            count >= 1 && index > old(self)@[0].len() ==> (r matches Err(e) && e matches
                ExtError::IndexError(m) && m@ == col_oob_msg(index as nat) && final(self)@ == old(self)@),
            count >= 1 && index <= old(self)@[0].len() ==> (r matches Ok(u) && final(self)@
                == Seq::new(
                old(self)@.len(),
                |i: int|
                    old(self)@[i].subrange(0, index as int) + empty_row(count as nat) + old(self)@[i].subrange(index as int, old(self)@[i].len() as int),
            )),
    {
        if count < 1 {
            return Err(ExtError::ValueError(String::from_str("count must be more than 0.")));
        }
        let width = self.GetWidth();
        if index > width {
            return Err(ExtError::IndexError(col_oob_msg_exec(index)));
        }
        let ghost gold = old(self)@;
        let rows = self.GetLength();
        let mut i: usize = 0;
        while i < rows
            invariant
                i <= rows,
                rows == gold.len(),
                width == gold[0].len(),
                index <= width,
                table_wf(gold),
                self.TableVec@.len() == gold.len(),
                forall|m: int| i <= m < rows ==> self.TableVec@[m] == old(self).TableVec@[m],
                forall|m: int| 0 <= m < i ==> (#[trigger] self.TableVec@[m]).deep_view()
                    == gold[m].subrange(0, index as int) + empty_row(count as nat)
                    + gold[m].subrange(index as int, gold[m].len() as int),
                self@ == self.TableVec.deep_view(),
                old(self)@ == gold,
            decreases rows - i,
        {
            proof {
                lemma_grid_view(old(self).TableVec);
                lemma_grid_view(self.TableVec);
                assert(gold[i as int].len() == gold[0].len());
            }
            let mut t: u32 = 0;
            while t < count
                invariant
                    t <= count,
                    i < rows == gold.len(),
                    index <= width == gold[0].len(),
                    gold[i as int].len() == width,
                    self.TableVec@.len() == gold.len(),
                    forall|m: int| i < m < rows ==> self.TableVec@[m] == old(self).TableVec@[m],
                    forall|m: int| 0 <= m < i ==> (#[trigger] self.TableVec@[m]).deep_view()
                        == gold[m].subrange(0, index as int) + empty_row(count as nat)
                        + gold[m].subrange(index as int, gold[m].len() as int),
                    self.TableVec@[i as int].deep_view() == gold[i as int].subrange(0, index as int)
                        + empty_row(t as nat) + gold[i as int].subrange(
                        index as int,
                        gold[i as int].len() as int,
                    ),
                    old(self)@ == gold,
                    old(self).TableVec@[i as int].deep_view() == gold[i as int],
                decreases count - t,
            {
                let ghost prev_row = self.TableVec@[i as int];
                proof {
                    lemma_row_view(prev_row);
                    assert(prev_row@.len() == prev_row.deep_view().len());
                }
                self.TableVec[i].insert(index, String::new());
                proof {
                    lemma_row_view(self.TableVec@[i as int]);
                    assert(self.TableVec@[i as int].deep_view() =~~= prev_row.deep_view().insert(
                        index as int,
                        Seq::<char>::empty(),
                    ));
                    assert(self.TableVec@[i as int].deep_view() =~~= gold[i as int].subrange(
                        0,
                        index as int,
                    ) + empty_row((t + 1) as nat) + gold[i as int].subrange(
                        index as int,
                        gold[i as int].len() as int,
                    ));
                }
                t += 1;
            }
            i += 1;
        }
        proof {
            lemma_grid_view(self.TableVec);
            assert(self@ =~~= Seq::new(
                gold.len(),
                |i: int|
                    gold[i].subrange(0, index as int) + empty_row(count as nat) + gold[i].subrange(
                        index as int,
                        gold[i].len() as int,
                    ),
            ));
            assert(final(self).wf());
        }
        Ok(())
    }

    /// Removes the row at `index`; a one-row table refuses, so the
    /// table never loses its last row.
    pub fn DeleteRow(&mut self, index: usize) -> (r: Result<(), ExtError>)
        requires
            old(self).wf(),
        ensures
            final(self).wf(),
            old(self)@.len() == 1 ==> (r matches Err(e) && e matches ExtError::ValueError(m) && m@
                == "Cannot remove the last row of the table."@ && final(self)@ == old(self)@),
            old(self)@.len() > 1 && index >= old(self)@.len() ==> (r matches Err(e) && e matches
                ExtError::IndexError(m) && m@ == row_oob_msg(index as nat) && final(self)@ == old(self)@),
            old(self)@.len() > 1 && index < old(self)@.len() ==> (r matches Ok(u) && final(self)@
                == old(self)@.remove(index as int)),
    {
        if self.GetLength() == 1 {
            return Err(
                ExtError::ValueError(String::from_str("Cannot remove the last row of the table.")),
            );
        }
        if index >= self.TableVec.len() {
            return Err(ExtError::IndexError(row_oob_msg_exec(index)));
        }
        let removed = self.TableVec.remove(index);
        proof {
            lemma_grid_view(old(self).TableVec);
            lemma_grid_view(self.TableVec);
            assert(self@ =~~= old(self)@.remove(index as int));
            assert(self@[0].len() == old(self)@[0].len());
            assert(final(self).wf());
        }
        Ok(())
    }

    /// Removes the column at `index` from every row; a one-column
    /// table refuses, so the table never loses its last column.
    pub fn DeleteColumn(&mut self, index: usize) -> (r: Result<(), ExtError>)
        requires
            old(self).wf(),
        ensures
            final(self).wf(),
            old(self)@[0].len() == 1 ==> (r matches Err(e) && e matches ExtError::ValueError(m)
                && m@ == "Cannot remove the last column of the table."@ && final(self)@ == old(self)@),
            old(self)@[0].len() > 1 && index >= old(self)@[0].len() ==> (r matches Err(e)
                && e matches ExtError::IndexError(m) && m@ == col_oob_msg(index as nat) && final(self)@ == old(self)@),
            old(self)@[0].len() > 1 && index < old(self)@[0].len() ==> (r matches Ok(u) && final(self)@ == Seq::new(old(self)@.len(), |i: int| old(self)@[i].remove(index as int))),
    {
        let width = self.GetWidth();
        if width == 1 {
            return Err(
                ExtError::ValueError(
                    String::from_str("Cannot remove the last column of the table."),
                ),
            );
        }
        if index >= width {
            return Err(ExtError::IndexError(col_oob_msg_exec(index)));
        }
        let ghost gold = old(self)@;
        let rows = self.GetLength();
        let mut i: usize = 0;
        while i < rows
            invariant
                i <= rows,
                rows == gold.len(),
                index < width == gold[0].len(),
                table_wf(gold),
                self.TableVec@.len() == gold.len(),
                forall|m: int| i <= m < rows ==> self.TableVec@[m] == old(self).TableVec@[m],
                forall|m: int| 0 <= m < i ==> (#[trigger] self.TableVec@[m]).deep_view()
                    == gold[m].remove(index as int),
                old(self)@ == gold,
            decreases rows - i,
        {
            proof {
                lemma_grid_view(old(self).TableVec);
                lemma_grid_view(self.TableVec);
                assert(gold[i as int].len() == gold[0].len());
                lemma_row_view(self.TableVec@[i as int]);
            }
            let ghost prev_row = self.TableVec@[i as int];
            self.TableVec[i].remove(index);
            proof {
                lemma_row_view(prev_row);
                lemma_row_view(self.TableVec@[i as int]);
                assert(self.TableVec@[i as int].deep_view() =~~= prev_row.deep_view().remove(
                    index as int,
                ));
                assert(self.TableVec@[i as int].deep_view() =~~= gold[i as int].remove(
                    index as int,
                ));
            }
            i += 1;
        }
        proof {
            lemma_grid_view(self.TableVec);
            assert(self@ =~~= Seq::new(gold.len(), |i: int| gold[i].remove(index as int)));
            assert(self@[0].len() == gold[0].len() - 1);
            assert(final(self).wf());
        }
        Ok(())
    }
}

} // verus!
