//! The recompiling table renderer: a table of focused cells that is laid
//! out afresh on every compile, colouring the borders around the one
//! focused cell while it builds each line.
use crate::markup::char_rep;
use crate::markup::end_marker;
use crate::markup::highlight_end;
use crate::markup::highlight_start;
use crate::markup::push_repeat;
use crate::markup::start_marker;
use crate::table::centered;
use crate::table::lemma_grid_view;
use crate::table::max_len_upto;
use vstd::pervasive::VecAdditionalExecFns;
use vstd::prelude::*;
use vstd::string::StrSliceExecFns;
use vstd::string::StringExecFns;

verus! {

/// Why a body or a header is rejected while the table is assembled.
#[derive(Debug, PartialEq, Eq, Structural, Clone, Copy)]
pub enum GridError {
    /// A column's cell count differs from the cell count of the columns
    /// already in the body.
    ColumnMismatch,
    /// A header row's column count differs from the body's.
    HeaderMismatch,
}

/// One table cell: its text, whether it carries extra information, and
/// whether it is the focused cell.
pub struct Cell {
    pub value: String,
    pub has_info: bool,
    pub is_focused: bool,
}

impl Cell {
    pub fn new(value: &str, has_info: bool, is_focused: bool) -> (r: Cell)
        ensures
            r.value@ == value@,
            r.has_info == has_info,
            r.is_focused == is_focused,
    {
        Cell { value: value.to_owned(), has_info, is_focused }
    }
}

/// One column of cells together with the width of its widest cell.
pub struct Column {
    pub cells: Vec<Cell>,
    pub max_width: usize,
}

impl Column {
    pub fn new(max_width: usize) -> (r: Column)
        ensures
            r.cells@.len() == 0,
            r.max_width == max_width,
    {
        Column { cells: Vec::new(), max_width }
    }

    /// Appends a cell, widening the column to the cell's width if needed.
    pub fn add_cell(&mut self, cell: Cell)
        ensures
            final(self).cells@ == old(self).cells@.push(cell),
            final(self).max_width == (if cell.value@.len() > old(self).max_width {
                cell.value@.len() as int
            } else {
                old(self).max_width as int
            }),
    {
        let l = cell.value.as_str().unicode_len();
        if l > self.max_width {
            self.max_width = l;
        }
        self.cells.push(cell);
    }
}

/// A row of header labels and their widths.
pub struct HeaderRow {
    pub row_values: Vec<&'static str>,
    pub row_widths: Vec<usize>,
}

impl HeaderRow {
    pub fn new(row_values: Vec<&'static str>) -> (r: HeaderRow)
        ensures
            r.row_values == row_values,
            r.row_widths@.len() == row_values@.len(),
            forall|i: int|
                0 <= i < row_values@.len() ==> #[trigger] r.row_widths@[i] == row_values@[i]@.len(),
    {
        let mut row_widths: Vec<usize> = Vec::new();
        let mut i: usize = 0;
        while i < row_values.len()
            invariant
                i <= row_values@.len(),
                row_widths@.len() == i,
                forall|k: int|
                    0 <= k < i ==> #[trigger] row_widths@[k] == row_values@[k]@.len(),
            decreases row_values@.len() - i,
        {
            row_widths.push(row_values[i].unicode_len());
            i = i + 1;
        }
        HeaderRow { row_values, row_widths }
    }
}

/// A column of header labels and the width of the widest one.
pub struct HeaderCol {
    pub col_values: Vec<&'static str>,
    pub width: usize,
}

impl HeaderCol {
    pub fn new(col_values: Vec<&'static str>) -> (r: HeaderCol)
        requires
            col_values@.len() > 0,
        ensures
            r.col_values == col_values,
            r.width == max_len_upto(col_values.deep_view(), col_values@.len() as int),
    {
        let mut width: usize = 0;
        let mut i: usize = 0;
        while i < col_values.len()
            invariant
                i <= col_values@.len(),
                width == max_len_upto(col_values.deep_view(), i as int),
            decreases col_values@.len() - i,
        {
            let l = col_values[i].unicode_len();
            if l > width {
                width = l;
            }
            i = i + 1;
        }
        HeaderCol { col_values, width }
    }
}

/// The lists handed to `from_vec` all have the same length, so they form
/// a rectangular grid.
pub open spec fn from_vec_ok<'a>(vec: Vec<Vec<&'a str>>) -> bool {
    forall|i: int| 0 <= i < vec@.len() ==> (#[trigger] vec@[i])@.len() == vec@[0]@.len()
}

/// What `from_vec` builds: one column per list, each cell unfocused and
/// carrying the list's value, each column exactly as wide as its widest
/// cell.
pub open spec fn from_vec_post<'a>(b: Body, vec: Vec<Vec<&'a str>>) -> bool {
    &&& b.wf()
    &&& b.selected_cell is None
    &&& b.grid.1 == vec@.len()
    &&& b.grid.0 == (if vec@.len() == 0 {
        0int
    } else {
        vec@[0]@.len() as int
    })
    &&& forall|c: int, k: int|
        #![auto]
        0 <= c < vec@.len() && 0 <= k < vec@[c]@.len() ==> {
            &&& b.body@[c].cells@[k].value@ == vec@[c]@[k]@
            &&& b.body@[c].cells@[k].has_info == false
            &&& b.body@[c].cells@[k].is_focused == false
        }
    &&& forall|c: int|
        0 <= c < vec@.len() ==> #[trigger] b.body@[c].max_width == max_len_upto(
            vec.deep_view()[c],
            vec@[c]@.len() as int,
        )
}

/// The grid of columns, its dimensions as `(rows, cols)`, and the focused
/// cell as `(col, row)`, if any.
pub struct Body {
    pub body: Vec<Column>,
    pub grid: (usize, usize),
    pub selected_cell: Option<(usize, usize)>,
}

impl Body {
    /// The recorded dimensions match the columns: there are `grid.1`
    /// columns of `grid.0` cells each.
    pub open spec fn wf(self) -> bool {
        &&& self.grid.1 == self.body@.len()
        &&& forall|c: int|
            0 <= c < self.body@.len() ==> (#[trigger] self.body@[c]).cells@.len() == self.grid.0
    }

    pub fn new() -> (r: Body)
        ensures
            r.wf(),
            r.body@.len() == 0,
            r.grid == (0usize, 0usize),
            r.selected_cell is None,
    {
        Body { body: Vec::new(), grid: (0, 0), selected_cell: None }
    }

    /// Appends a column; rejects one whose cell count differs from the
    /// cell count the body already has.
    pub fn add_column(&mut self, column: Column) -> (r: Result<(), GridError>)
        requires
            old(self).wf(),
        ensures
            final(self).wf(),
            r is Ok <==> (old(self).body@.len() == 0 || column.cells@.len() == old(self).grid.0),
            r is Ok ==> {
                &&& final(self).body@ == old(self).body@.push(column)
                &&& final(self).grid.0 == column.cells@.len()
                &&& final(self).grid.1 == old(self).grid.1 + 1
                &&& final(self).selected_cell == old(self).selected_cell
            },
            r is Err ==> *final(self) == *old(self) && r == Result::<(), GridError>::Err(
                GridError::ColumnMismatch,
            ),
    {
        if self.body.len() == 0 {
            self.grid.0 = column.cells.len();
        } else if column.cells.len() != self.grid.0 {
            return Err(GridError::ColumnMismatch);
        }
        self.body.push(column);
        self.grid.1 = self.body.len();
        Ok(())
    }

    /// Builds a body from a list of cell-value lists, one column per list;
    /// rejects lists of differing lengths.
    pub fn from_vec(vec: Vec<Vec<&str>>) -> (r: Result<Body, GridError>)
        ensures
            r is Ok <==> from_vec_ok(vec),
            r matches Ok(b) ==> from_vec_post(b, vec),
    {
        proof {
            lemma_grid_view(vec);
        }
        let mut table = Body::new();
        let mut i: usize = 0;
        while i < vec.len()
            invariant
                i <= vec@.len(),
                table.wf(),
                table.selected_cell is None,
                table.body@.len() == i,
                table.grid.1 == i,
                table.grid.0 == (if i == 0 {
                    0int
                } else {
                    vec@[0]@.len() as int
                }),
                forall|k: int| 0 <= k < i ==> (#[trigger] vec@[k])@.len() == vec@[0]@.len(),
                forall|c: int, k: int|
                    #![auto]
                    0 <= c < i && 0 <= k < vec@[c]@.len() ==> {
                        &&& table.body@[c].cells@[k].value@ == vec@[c]@[k]@
                        &&& table.body@[c].cells@[k].has_info == false
                        &&& table.body@[c].cells@[k].is_focused == false
                    },
                forall|c: int|
                    0 <= c < i ==> #[trigger] table.body@[c].max_width == max_len_upto(
                        vec.deep_view()[c],
                        vec@[c]@.len() as int,
                    ),
            decreases vec@.len() - i,
        {
            if i > 0 && vec[i].len() != vec[0].len() {
                return Err(GridError::ColumnMismatch);
            }
            let mut column = Column::new(0);
            let mut j: usize = 0;
            while j < vec[i].len()
                invariant
                    i < vec@.len(),
                    j <= vec@[i as int]@.len(),
                    column.cells@.len() == j,
                    forall|k: int|
                        #![auto]
                        0 <= k < j ==> {
                            &&& column.cells@[k].value@ == vec@[i as int]@[k]@
                            &&& column.cells@[k].has_info == false
                            &&& column.cells@[k].is_focused == false
                        },
                    column.max_width == max_len_upto(vec.deep_view()[i as int], j as int),
                decreases vec@[i as int]@.len() - j,
            {
                let cell = Cell::new(vec[i][j], false, false);
                column.add_cell(cell);
                j = j + 1;
            }
            let ghost colsnap = column;
            let res = table.add_column(column);
            proof {
                assert(res is Ok);
                assert(table.body@[i as int] == colsnap);
            }
            i = i + 1;
        }
        Ok(table)
    }

    /// The focused cell, for reading or updating in place.
    pub fn focused_cell(&mut self) -> (ret: &mut Cell)
        requires
            old(self).wf(),
            old(self).selected_cell matches Some((sc, sr)) && sc < old(self).grid.1 && sr < old(
                self,
            ).grid.0,
        ensures
            old(self).selected_cell matches Some((sc, sr)) ==> {
                &&& *ret == old(self).body@[sc as int].cells@[sr as int]
                &&& final(self).grid == old(self).grid
                &&& final(self).selected_cell == old(self).selected_cell
                &&& final(self).body@.len() == old(self).body@.len()
                &&& forall|c: int|
                    0 <= c < old(self).body@.len() && c != sc ==> #[trigger] final(self).body@[c]
                        == old(self).body@[c]
                &&& final(self).body@[sc as int].max_width == old(
                    self,
                ).body@[sc as int].max_width
                &&& final(self).body@[sc as int].cells@ == old(self).body@[sc as int].cells@.update(
                    sr as int,
                    *final(ret),
                )
            },
    {
        let selected_cell = self.selected_cell.unwrap();
        let column: &mut Column = &mut self.body[selected_cell.0];
        let cell: &mut Cell = &mut column.cells[selected_cell.1];
        cell
    }

    /// Records the cell at `(col, row)` as the focused one.
    pub fn change_focused_cell(&mut self, grid: (usize, usize))
        ensures
            final(self).selected_cell == Some(grid),
            final(self).body == old(self).body,
            final(self).grid == old(self).grid,
    {
        self.selected_cell = Some(grid);
    }

    /// The focused cell's coordinates, if any.
    pub fn selected_cell(&self) -> (r: Option<(usize, usize)>)
        ensures
            r == self.selected_cell,
    {
        self.selected_cell
    }

    /// The value of the cell at `(col, row)`, if those are in range.
    pub fn get_value(&self, col: usize, row: usize) -> (r: Option<&str>)
        ensures
            (col < self.body@.len() && row < self.body@[col as int].cells@.len()) ==> (r matches Some(
                v,
            ) && v@ == self.body@[col as int].cells@[row as int].value@),
            !(col < self.body@.len() && row < self.body@[col as int].cells@.len()) ==> r is None,
    {
        if col < self.body.len() && row < self.body[col].cells.len() {
            Some(self.body[col].cells[row].value.as_str())
        } else {
            None
        }
    }

    /// The cell at `(col, row)`.
    pub fn get_cell(&self, col: usize, row: usize) -> (r: &Cell)
        requires
            col < self.body@.len(),
            row < self.body@[col as int].cells@.len(),
        ensures
            *r == self.body@[col as int].cells@[row as int],
    {
        &self.body[col].cells[row]
    }

    /// The number of rows.
    pub fn rows(&self) -> (r: usize)
        ensures
            r == self.grid.0,
    {
        self.grid.0
    }

    /// The number of columns.
    pub fn cols(&self) -> (r: usize)
        ensures
            r == self.grid.1,
    {
        self.grid.1
    }

    /// Sets every cell's focus flag from the recorded selection: exactly
    /// the selected cell is focused. Leaves the flags alone when nothing
    /// is selected.
    pub fn update_focus(&mut self)
        requires
            old(self).wf(),
        ensures
            final(self).wf(),
            final(self).grid == old(self).grid,
            final(self).selected_cell == old(self).selected_cell,
            final(self).body@.len() == old(self).body@.len(),
            old(self).selected_cell is None ==> final(self).body == old(self).body,
            old(self).selected_cell matches Some((sc, sr)) ==> forall|c: int|
                0 <= c < old(self).body@.len() ==> {
                    &&& (#[trigger] final(self).body@[c]).max_width == old(self).body@[c].max_width
                    &&& final(self).body@[c].cells@.len() == old(self).body@[c].cells@.len()
                    &&& forall|r: int|
                        0 <= r < old(self).body@[c].cells@.len() ==> {
                            &&& (#[trigger] final(self).body@[c].cells@[r]).value == old(
                                self,
                            ).body@[c].cells@[r].value
                            &&& final(self).body@[c].cells@[r].has_info == old(
                                self,
                            ).body@[c].cells@[r].has_info
                            &&& final(self).body@[c].cells@[r].is_focused == (c == sc as int && r
                                == sr as int)
                        }
                },
    {
        if self.selected_cell.is_none() {
            return ;
        }
        let (sc, sr) = self.selected_cell.unwrap();
        let ncols = self.body.len();
        let mut newbody: Vec<Column> = Vec::new();
        let mut c: usize = 0;
        while c < ncols
            invariant
                c <= ncols,
                ncols == self.body@.len(),
                self == old(self),
                newbody@.len() == c,
                forall|k: int|
                    0 <= k < c ==> {
                        &&& (#[trigger] newbody@[k]).max_width == self.body@[k].max_width
                        &&& newbody@[k].cells@.len() == self.body@[k].cells@.len()
                        &&& forall|r: int|
                            0 <= r < self.body@[k].cells@.len() ==> {
                                &&& (#[trigger] newbody@[k].cells@[r]).value
                                    == self.body@[k].cells@[r].value
                                &&& newbody@[k].cells@[r].has_info
                                    == self.body@[k].cells@[r].has_info
                                &&& newbody@[k].cells@[r].is_focused == (k == sc as int && r
                                    == sr as int)
                            }
                    },
            decreases ncols - c,
        {
            let nrows = self.body[c].cells.len();
            let mut cells: Vec<Cell> = Vec::new();
            let mut r: usize = 0;
            while r < nrows
                invariant
                    c < self.body@.len(),
                    r <= nrows,
                    nrows == self.body@[c as int].cells@.len(),
                    self == old(self),
                    cells@.len() == r,
                    forall|k: int|
                        0 <= k < r ==> {
                            &&& (#[trigger] cells@[k]).value
                                == self.body@[c as int].cells@[k].value
                            &&& cells@[k].has_info == self.body@[c as int].cells@[k].has_info
                            &&& cells@[k].is_focused == (c as int == sc as int && k == sr as int)
                        },
                decreases nrows - r,
            {
                let src = &self.body[c].cells[r];
                cells.push(
                    Cell {
                        value: src.value.clone(),
                        has_info: src.has_info,
                        is_focused: c == sc && r == sr,
                    },
                );
                r = r + 1;
            }
            newbody.push(Column { cells, max_width: self.body[c].max_width });
            c = c + 1;
        }
        self.body = newbody;
    }
}

/// A glyph run coloured for its focus state: the highlight marker when
/// focused, the reset marker when not, then the payload, then a reset.
pub open spec fn colored(focused: bool, payload: Seq<char>) -> Seq<char> {
    (if focused {
        start_marker()
    } else {
        end_marker()
    }) + payload + end_marker()
}

/// The focus flag of the cell at column `w`, row `h`.
pub open spec fn cell_flag(b: Seq<Column>, w: int, h: int) -> bool {
    b[w].cells@[h].is_focused
}

/// A corner glyph at line boundary `h`, column boundary `w` is coloured
/// when any of the up-to-four cells that touch it is focused.
pub open spec fn corner_focused(b: Seq<Column>, rows: int, cols: int, h: int, w: int) -> bool {
    ||| (h < rows && w < cols && cell_flag(b, w, h))
    ||| (h > 0 && h - 1 < rows && w < cols && cell_flag(b, w, h - 1))
    ||| (h < rows && w > 0 && w - 1 < cols && cell_flag(b, w - 1, h))
    ||| (h > 0 && h - 1 < rows && w > 0 && w - 1 < cols && cell_flag(b, w - 1, h - 1))
}

/// A horizontal border run above or below a cell is coloured when the
/// cell under or over it is focused.
pub open spec fn vline_focused(b: Seq<Column>, rows: int, cols: int, h: int, w: int) -> bool {
    ||| (h < rows && w < cols && cell_flag(b, w, h))
    ||| (h > 0 && h - 1 < rows && w < cols && cell_flag(b, w, h - 1))
}

/// A vertical separator is coloured when the cell on either side of it is
/// focused.
pub open spec fn hline_focused(b: Seq<Column>, rows: int, cols: int, h: int, w: int) -> bool {
    ||| (h < rows && w < cols && cell_flag(b, w, h))
    ||| (w > 0 && w - 1 < cols && h < rows && cell_flag(b, w - 1, h))
}

/// A cell's content run is coloured when the cell itself is focused.
pub open spec fn value_focused(b: Seq<Column>, rows: int, cols: int, h: int, w: int) -> bool {
    h < rows && w < cols && cell_flag(b, w, h)
}

/// One corner glyph, coloured for its focus state.
pub open spec fn corner_str(f: bool) -> Seq<char> {
    colored(f, seq!['+'])
}

/// One horizontal border run of `width + 2` fill glyphs.
pub open spec fn vline_str(f: bool, width: int) -> Seq<char> {
    colored(f, char_rep('-', (width + 2) as nat))
}

/// One separator glyph right-aligned within `max(width, 1)` characters.
pub open spec fn hline_str(f: bool, width: int) -> Seq<char> {
    let wd = if width < 1 {
        1int
    } else {
        width
    };
    colored(f, char_rep(' ', (wd - 1) as nat) + seq!['|'])
}

/// One cell value centred within `width + 2` characters.
pub open spec fn value_str(f: bool, value: Seq<char>, width: int) -> Seq<char> {
    colored(f, centered(value, width + 2))
}

/// The first `c` column segments of the border line at row boundary `r`.
pub open spec fn border_row_prefix(b: Seq<Column>, rows: int, cols: int, r: int, c: int) -> Seq<
    char,
>
    decreases c,
{
    if c <= 0 {
        Seq::empty()
    } else {
        border_row_prefix(b, rows, cols, r, c - 1) + corner_str(
            corner_focused(b, rows, cols, r, c - 1),
        ) + vline_str(vline_focused(b, rows, cols, r, c - 1), b[c - 1].max_width as int)
    }
}

/// A full border line at row boundary `r`, trailing newline included.
pub open spec fn border_row_line(b: Seq<Column>, rows: int, cols: int, r: int) -> Seq<char> {
    border_row_prefix(b, rows, cols, r, cols) + corner_str(corner_focused(b, rows, cols, r, cols))
        + seq!['\n']
}

/// The first `c` column segments of the content line of row `r`.
pub open spec fn content_row_prefix(b: Seq<Column>, rows: int, cols: int, r: int, c: int) -> Seq<
    char,
>
    decreases c,
{
    if c <= 0 {
        Seq::empty()
    } else {
        content_row_prefix(b, rows, cols, r, c - 1) + hline_str(
            hline_focused(b, rows, cols, r, c - 1),
            0,
        ) + value_str(
            value_focused(b, rows, cols, r, c - 1),
            b[c - 1].cells@[r].value@,
            b[c - 1].max_width as int,
        )
    }
}

/// A full content line for row `r`, trailing newline included.
pub open spec fn content_row_line(b: Seq<Column>, rows: int, cols: int, r: int) -> Seq<char> {
    content_row_prefix(b, rows, cols, r, cols) + hline_str(hline_focused(b, rows, cols, r, cols), 0)
        + seq!['\n']
}

/// All lines of the compiled body: borders and content rows interleaved.
pub open spec fn body_lines(b: Seq<Column>, rows: int, cols: int) -> Seq<Seq<char>> {
    Seq::new(
        (2 * rows + 1) as nat,
        |i: int|
            if i % 2 == 0 {
                border_row_line(b, rows, cols, i / 2)
            } else {
                content_row_line(b, rows, cols, (i - 1) / 2)
            },
    )
}

/// A table assembled from a body and optional headers, with the lines the
/// last compile produced.
pub struct Table {
    pub header_row: Option<HeaderRow>,
    pub header_col: Option<HeaderCol>,
    pub body: Body,
    pub raw_strings: Vec<String>,
}

impl Table {
    fn new() -> (r: Table)
        ensures
            r.header_row is None,
            r.header_col is None,
            r.body.wf(),
            r.body.body@.len() == 0,
            r.body.grid == (0usize, 0usize),
            r.body.selected_cell is None,
            r.raw_strings@.len() == 0,
    {
        Table { header_row: None, header_col: None, body: Body::new(), raw_strings: Vec::new() }
    }

    /// Adopts a header row, widening each column to its label if needed;
    /// rejects a row whose label count differs from the body's columns.
    pub fn add_header_row(&mut self, header_row: HeaderRow) -> (r: Result<(), GridError>)
        requires
            old(self).body.wf(),
            header_row.row_widths@.len() == header_row.row_values@.len(),
        ensures
            final(self).body.wf(),
            r is Ok <==> header_row.row_values@.len() == old(self).body.body@.len(),
            r is Err ==> *final(self) == *old(self) && r == Result::<(), GridError>::Err(
                GridError::HeaderMismatch,
            ),
            r is Ok ==> {
                &&& final(self).header_col == old(self).header_col
                &&& final(self).raw_strings == old(self).raw_strings
                &&& final(self).body.grid == old(self).body.grid
                &&& final(self).body.selected_cell == old(self).body.selected_cell
                &&& final(self).body.body@.len() == old(self).body.body@.len()
                &&& forall|c: int|
                    0 <= c < old(self).body.body@.len() ==> {
                        &&& (#[trigger] final(self).body.body@[c]).cells == old(
                            self,
                        ).body.body@[c].cells
                        &&& final(self).body.body@[c].max_width == (if old(
                            self,
                        ).body.body@[c].max_width >= header_row.row_widths@[c] {
                            old(self).body.body@[c].max_width as int
                        } else {
                            header_row.row_widths@[c] as int
                        })
                    }
                &&& final(self).header_row matches Some(h) && h.row_values
                    == header_row.row_values && h.row_widths@.len()
                    == header_row.row_widths@.len() && (forall|c: int|
                    0 <= c < old(self).body.body@.len() ==> h.row_widths@[c] == (
                    #[trigger] final(self).body.body@[c]).max_width)
            },
    {
        let col_len: usize = self.body.body.len();
        let row_len: usize = header_row.row_values.len();
        if row_len != col_len {
            return Err(GridError::HeaderMismatch);
        }
        let mut header_row = header_row;
        let ghost hrow0 = header_row;
        let mut idx: usize = 0;
        while idx < col_len
            invariant
                idx <= col_len,
                col_len == self.body.body@.len(),
                self.header_row == old(self).header_row,
                self.header_col == old(self).header_col,
                self.raw_strings == old(self).raw_strings,
                self.body.grid == old(self).body.grid,
                self.body.selected_cell == old(self).body.selected_cell,
                header_row.row_values == hrow0.row_values,
                header_row.row_widths@.len() == col_len,
                forall|c: int|
                    idx <= c < col_len ==> #[trigger] header_row.row_widths@[c]
                        == hrow0.row_widths@[c],
                forall|c: int|
                    idx <= c < col_len ==> #[trigger] self.body.body@[c] == old(
                        self,
                    ).body.body@[c],
                forall|c: int|
                    0 <= c < idx ==> {
                        &&& (#[trigger] self.body.body@[c]).cells == old(self).body.body@[c].cells
                        &&& self.body.body@[c].max_width == (if old(self).body.body@[c].max_width
                            >= hrow0.row_widths@[c] {
                            old(self).body.body@[c].max_width as int
                        } else {
                            hrow0.row_widths@[c] as int
                        })
                        &&& header_row.row_widths@[c] == self.body.body@[c].max_width
                    },
            decreases col_len - idx,
        {
            let cw: usize = self.body.body[idx].max_width;
            let hw: usize = header_row.row_widths[idx];
            let mw: usize = if cw >= hw {
                cw
            } else {
                hw
            };
            let ghost bsnap = self.body.body@;
            self.body.body[idx].max_width = mw;
            proof {
                assert(self.body.body@ =~= bsnap.update(
                    idx as int,
                    (Column { cells: bsnap[idx as int].cells, max_width: mw }),
                ));
            }
            header_row.row_widths.set(idx, mw);
            idx = idx + 1;
        }
        self.header_row = Some(header_row);
        Ok(())
    }

    /// Adopts a header column.
    pub fn add_header_col(&mut self, header_col: HeaderCol)
        ensures
            final(self).header_col == Some(header_col),
            final(self).header_row == old(self).header_row,
            final(self).body == old(self).body,
            final(self).raw_strings == old(self).raw_strings,
    {
        self.header_col = Some(header_col);
    }

    /// Replaces the body.
    pub fn add_body(&mut self, body: Body)
        ensures
            final(self).body == body,
            final(self).header_row == old(self).header_row,
            final(self).header_col == old(self).header_col,
            final(self).raw_strings == old(self).raw_strings,
    {
        self.body = body;
    }

    /// Builds a table from a list of cell-value lists and optional
    /// headers; rejects lists of differing lengths.
    pub fn from_vec(
        vec: Vec<Vec<&str>>,
        header_row: Option<HeaderRow>,
        header_col: Option<HeaderCol>,
    ) -> (r: Result<Table, GridError>)
        ensures
            r is Ok <==> from_vec_ok(vec),
            r matches Ok(t) ==> {
                &&& from_vec_post(t.body, vec)
                &&& t.header_row == header_row
                &&& t.header_col == header_col
                &&& t.raw_strings@.len() == 0
            },
    {
        let mut table = Table::new();
        table.header_row = header_row;
        table.header_col = header_col;
        let body = Body::from_vec(vec)?;
        table.body = body;
        Ok(table)
    }

    /// One corner glyph, coloured when a neighbouring cell is focused.
    fn make_corner(&self, grids: (usize, usize)) -> (r: String)
        requires
            self.body.wf(),
        ensures
            r@ == corner_str(
                corner_focused(
                    self.body.body@,
                    self.body.grid.0 as int,
                    self.body.grid.1 as int,
                    grids.0 as int,
                    grids.1 as int,
                ),
            ),
    {
        let mut is_highlighted: bool = false;
        let height: usize = self.body.rows();
        let cols: usize = self.body.cols();
        let h: usize = grids.0;
        let w: usize = grids.1;

        if h < height && w < cols {
            is_highlighted = is_highlighted || self.body.body[w].cells[h].is_focused;
        }
        if h > 0 && h - 1 < height && w < cols {
            is_highlighted = is_highlighted || self.body.body[w].cells[h - 1].is_focused;
        }
        if h < height && w > 0 && w - 1 < cols {
            is_highlighted = is_highlighted || self.body.body[w - 1].cells[h].is_focused;
        }
        if h > 0 && h - 1 < height && w > 0 && w - 1 < cols {
            is_highlighted = is_highlighted || self.body.body[w - 1].cells[h - 1].is_focused;
        }

        let mut s = String::new();
        if is_highlighted {
            s.append(highlight_start());
        } else {
            s.append(highlight_end());
        }
        s.append("+");
        s.append(highlight_end());
        proof {
            reveal_strlit("+");
            assert("+"@ =~= seq!['+']);
            assert(s@ =~= corner_str(is_highlighted));
        }
        s
    }

    /// One horizontal border run, coloured when the cell above or below
    /// it is focused.
    fn make_vertical_line(&self, width: usize, grids: (usize, usize)) -> (r: String)
        requires
            self.body.wf(),
            width + 2 <= usize::MAX,
        ensures
            r@ == vline_str(
                vline_focused(
                    self.body.body@,
                    self.body.grid.0 as int,
                    self.body.grid.1 as int,
                    grids.0 as int,
                    grids.1 as int,
                ),
                width as int,
            ),
    {
        let mut is_highlighted: bool = false;
        let height: usize = self.body.rows();
        let cols: usize = self.body.cols();
        let h: usize = grids.0;
        let w: usize = grids.1;

        if h < height && w < cols {
            is_highlighted = is_highlighted || self.body.body[w].cells[h].is_focused;
        }
        if h > 0 && h - 1 < height && w < cols {
            is_highlighted = is_highlighted || self.body.body[w].cells[h - 1].is_focused;
        }

        let mut s = String::new();
        if is_highlighted {
            s.append(highlight_start());
        } else {
            s.append(highlight_end());
        }
        proof {
            reveal_strlit("-");
        }
        push_repeat(&mut s, "-", width + 2);
        s.append(highlight_end());
        proof {
            assert(s@ =~= vline_str(is_highlighted, width as int));
        }
        s
    }

    /// One vertical separator glyph right-aligned in `max(width, 1)`
    /// characters, coloured when a cell beside it is focused.
    fn make_horizontal_line(&self, width: usize, grids: (usize, usize)) -> (r: String)
        requires
            self.body.wf(),
        ensures
            r@ == hline_str(
                hline_focused(
                    self.body.body@,
                    self.body.grid.0 as int,
                    self.body.grid.1 as int,
                    grids.0 as int,
                    grids.1 as int,
                ),
                width as int,
            ),
    {
        let mut is_highlighted: bool = false;
        let height: usize = self.body.rows();
        let cols: usize = self.body.cols();
        let h: usize = grids.0;
        let w: usize = grids.1;

        if h < height && w < cols {
            is_highlighted = is_highlighted || self.body.body[w].cells[h].is_focused;
        }
        if w > 0 && w - 1 < cols && h < height {
            is_highlighted = is_highlighted || self.body.body[w - 1].cells[h].is_focused;
        }

        let wd: usize = if width < 1 {
            1
        } else {
            width
        };
        let mut s = String::new();
        if is_highlighted {
            s.append(highlight_start());
        } else {
            s.append(highlight_end());
        }
        proof {
            reveal_strlit(" ");
            reveal_strlit("|");
            assert("|"@ =~= seq!['|']);
        }
        push_repeat(&mut s, " ", wd - 1);
        s.append("|");
        s.append(highlight_end());
        proof {
            assert(s@ =~= hline_str(is_highlighted, width as int));
        }
        s
    }

    /// One cell value centred in its column width plus two, coloured when
    /// the cell is focused.
    fn make_value(&self, value: &str, grids: (usize, usize)) -> (r: String)
        requires
            self.body.wf(),
            grids.1 < self.body.body@.len() ==> self.body.body@[grids.1 as int].max_width + 2
                <= usize::MAX,
        ensures
            r@ == value_str(
                value_focused(
                    self.body.body@,
                    self.body.grid.0 as int,
                    self.body.grid.1 as int,
                    grids.0 as int,
                    grids.1 as int,
                ),
                value@,
                (if grids.1 < self.body.body@.len() {
                    self.body.body@[grids.1 as int].max_width as int
                } else {
                    0int
                }),
            ),
    {
        let mut is_highlighted: bool = false;
        let height: usize = self.body.rows();
        let cols: usize = self.body.cols();
        let h: usize = grids.0;
        let w: usize = grids.1;

        if h < height && w < cols {
            is_highlighted = is_highlighted || self.body.body[w].cells[h].is_focused;
        }
        let width: usize = if w < cols {
            self.body.body[w].max_width
        } else {
            0
        };
        let total: usize = width + 2;
        let len: usize = value.unicode_len();
        let mut s = String::new();
        if is_highlighted {
            s.append(highlight_start());
        } else {
            s.append(highlight_end());
        }
        proof {
            reveal_strlit(" ");
        }
        if len <= total {
            let left: usize = (total - len) / 2;
            let right: usize = total - len - left;
            push_repeat(&mut s, " ", left);
            s.append(value);
            push_repeat(&mut s, " ", right);
        } else {
            s.append(value);
        }
        s.append(highlight_end());
        proof {
            assert(s@ =~= value_str(is_highlighted, value@, width as int));
        }
        s
    }

    /// One full border line at row boundary `r`, newline included.
    fn make_border_row(&self, r: usize) -> (ret: String)
        requires
            self.body.wf(),
            forall|c: int|
                0 <= c < self.body.body@.len() ==> (#[trigger] self.body.body@[c]).max_width + 2
                    <= usize::MAX,
        ensures
            ret@ == border_row_line(
                self.body.body@,
                self.body.grid.0 as int,
                self.body.grid.1 as int,
                r as int,
            ),
    {
        let ghost b = self.body.body@;
        let ghost rowsg = self.body.grid.0 as int;
        let ghost colsg = self.body.grid.1 as int;
        let cols = self.body.cols();
        let mut line = String::new();
        proof {
            assert(line@ =~= border_row_prefix(b, rowsg, colsg, r as int, 0));
        }
        let mut c: usize = 0;
        while c < cols
            invariant
                c <= cols,
                line@ == border_row_prefix(b, rowsg, colsg, r as int, c as int),
            decreases cols - c,
        {
            let corner = self.make_corner((r, c));
            line.append(corner.as_str());
            let v = self.make_vertical_line(self.body.body[c].max_width, (r, c));
            line.append(v.as_str());
            proof {
                assert(line@ =~= border_row_prefix(b, rowsg, colsg, r as int, c as int + 1));
            }
            c = c + 1;
        }
        let corner = self.make_corner((r, cols));
        line.append(corner.as_str());
        line.append("\n");
        proof {
            reveal_strlit("\n");
            assert("\n"@ =~= seq!['\n']);
            assert(line@ =~= border_row_line(b, rowsg, colsg, r as int));
        }
        line
    }

    /// One full content line for row `r`, newline included.
    fn make_content_row(&self, r: usize) -> (ret: String)
        requires
            self.body.wf(),
            r < self.body.grid.0,
            forall|c: int|
                0 <= c < self.body.body@.len() ==> (#[trigger] self.body.body@[c]).max_width + 2
                    <= usize::MAX,
        ensures
            ret@ == content_row_line(
                self.body.body@,
                self.body.grid.0 as int,
                self.body.grid.1 as int,
                r as int,
            ),
    {
        let ghost b = self.body.body@;
        let ghost rowsg = self.body.grid.0 as int;
        let ghost colsg = self.body.grid.1 as int;
        let cols = self.body.cols();
        let mut line = String::new();
        proof {
            assert(line@ =~= content_row_prefix(b, rowsg, colsg, r as int, 0));
        }
        let mut c: usize = 0;
        while c < cols
            invariant
                c <= cols,
                line@ == content_row_prefix(b, rowsg, colsg, r as int, c as int),
            decreases cols - c,
        {
            let hl = self.make_horizontal_line(0, (r, c));
            line.append(hl.as_str());
            let v = self.make_value(self.body.body[c].cells[r].value.as_str(), (r, c));
            line.append(v.as_str());
            proof {
                assert(line@ =~= content_row_prefix(b, rowsg, colsg, r as int, c as int + 1));
            }
            c = c + 1;
        }
        let hl = self.make_horizontal_line(0, (r, cols));
        line.append(hl.as_str());
        line.append("\n");
        proof {
            reveal_strlit("\n");
            assert("\n"@ =~= seq!['\n']);
            assert(line@ =~= content_row_line(b, rowsg, colsg, r as int));
        }
        line
    }

    /// Lays the body out afresh: sets every cell's focus flag from the
    /// recorded selection, then renders every border and content line with
    /// the focused cell's surroundings coloured.
    pub fn compile(&mut self)
        requires
            old(self).body.wf(),
            forall|c: int|
                0 <= c < old(self).body.body@.len() ==> (#[trigger] old(
                    self,
                ).body.body@[c]).max_width + 2 <= usize::MAX,
        ensures
            final(self).body.wf(),
            final(self).header_row == old(self).header_row,
            final(self).header_col == old(self).header_col,
            final(self).body.grid == old(self).body.grid,
            final(self).body.selected_cell == old(self).body.selected_cell,
            final(self).body.body@.len() == old(self).body.body@.len(),
            old(self).body.selected_cell is None ==> final(self).body == old(self).body,
            old(self).body.selected_cell matches Some((sc, sr)) ==> forall|c: int|
                0 <= c < old(self).body.body@.len() ==> {
                    &&& (#[trigger] final(self).body.body@[c]).max_width == old(
                        self,
                    ).body.body@[c].max_width
                    &&& final(self).body.body@[c].cells@.len() == old(
                        self,
                    ).body.body@[c].cells@.len()
                    &&& forall|k: int|
                        0 <= k < old(self).body.body@[c].cells@.len() ==> {
                            &&& (#[trigger] final(self).body.body@[c].cells@[k]).value == old(
                                self,
                            ).body.body@[c].cells@[k].value
                            &&& final(self).body.body@[c].cells@[k].has_info == old(
                                self,
                            ).body.body@[c].cells@[k].has_info
                            &&& final(self).body.body@[c].cells@[k].is_focused == (c == sc as int
                                && k == sr as int)
                        }
                },
            final(self).raw_strings.deep_view() == body_lines(
                final(self).body.body@,
                final(self).body.grid.0 as int,
                final(self).body.grid.1 as int,
            ),
    {
        self.body.update_focus();
        proof {
            assert forall|c: int| 0 <= c < self.body.body@.len() implies (
            #[trigger] self.body.body@[c]).max_width + 2 <= usize::MAX by {
                if old(self).body.selected_cell is Some {
                    assert(self.body.body@[c].max_width == old(self).body.body@[c].max_width);
                }
            }
        }
        let rows = self.body.rows();
        let ghost b = self.body.body@;
        let ghost rowsg = rows as int;
        let ghost colsg = self.body.grid.1 as int;
        let mut lines: Vec<String> = Vec::new();
        let mut r: usize = 0;
        while r < rows
            invariant
                r <= rows,
                lines@.len() == 2 * r,
                forall|i: int|
                    0 <= i < lines@.len() ==> #[trigger] lines.deep_view()[i] == body_lines(
                        b,
                        rowsg,
                        colsg,
                    )[i],
            decreases rows - r,
        {
            let border = self.make_border_row(r);
            let content = self.make_content_row(r);
            let ghost lbefore = lines.deep_view();
            let ghost borderv = border@;
            let ghost contentv = content@;
            lines.push(border);
            lines.push(content);
            proof {
                assert(lines.deep_view() =~= lbefore.push(borderv).push(contentv));
                assert((2 * (r as int)) % 2 == 0 && (2 * (r as int) + 1) % 2 == 1)
                    by (nonlinear_arith);
                assert((2 * (r as int)) / 2 == r as int);
                assert(lines.deep_view()[2 * (r as int)] == body_lines(b, rowsg, colsg)[2 * (
                r as int)]);
                assert(lines.deep_view()[2 * (r as int) + 1] == body_lines(b, rowsg, colsg)[2 * (
                r as int) + 1]);
            }
            r = r + 1;
        }
        let border = self.make_border_row(rows);
        let ghost lbefore = lines.deep_view();
        let ghost borderv = border@;
        lines.push(border);
        proof {
            assert(lines.deep_view() =~= lbefore.push(borderv));
            assert((2 * rowsg) % 2 == 0 && (2 * rowsg) / 2 == rowsg);
            assert(lines.deep_view()[2 * rowsg] == body_lines(b, rowsg, colsg)[2 * rowsg]);
            assert(lines.deep_view() =~= body_lines(b, rowsg, colsg));
        }
        self.raw_strings = lines;
    }

    /// The body, for reading or updating in place.
    pub fn body_mut(&mut self) -> (ret: &mut Body)
        ensures
            *ret == old(self).body,
            final(self).body == *final(ret),
            final(self).header_row == old(self).header_row,
            final(self).header_col == old(self).header_col,
            final(self).raw_strings == old(self).raw_strings,
    {
        &mut self.body
    }
}

} // verus!
