//! The incremental table renderer: a layout compiler that turns a grid of
//! cells into bordered text lines plus offset tables, and a highlight
//! mutator that splices ANSI colour markers in and out of those lines to
//! move a single-cell highlight without recompiling the layout.
use crate::markup::char_rep;
use crate::markup::concat_segments;
use crate::markup::count_char;
use crate::markup::end_marker;
use crate::markup::END_MARKER_LEN;
use crate::markup::highlight_end;
use crate::markup::highlight_start;
use crate::markup::join_segments;
use crate::markup::lemma_concat_segments_push;
use crate::markup::lemma_count_char_concat;
use crate::markup::lemma_count_char_rep;
use crate::markup::push_repeat;
use crate::markup::start_marker;
use crate::markup::START_MARKER_LEN;
use vstd::pervasive::VecAdditionalExecFns;
use vstd::prelude::*;
use vstd::string::StrSliceExecFns;
use vstd::string::StringExecFns;

verus! {

/// Why a grid is rejected at construction.
#[derive(Debug, PartialEq, Eq, Structural, Clone, Copy)]
pub enum TableError {
    /// Not every row of the grid has the same number of cells.
    NonRectangular,
}

/// The number of columns of a grid: the length of its first row.
pub open spec fn grid_cols(grid: Seq<Seq<Seq<char>>>) -> int {
    if grid.len() == 0 {
        0
    } else {
        grid[0].len() as int
    }
}

/// Every row of the grid has the same number of cells.
pub open spec fn grid_rectangular(grid: Seq<Seq<Seq<char>>>) -> bool {
    forall|r: int| 0 <= r < grid.len() ==> (#[trigger] grid[r]).len() == grid_cols(grid)
}

/// The widest cell among the first `r` rows of column `c`.
pub open spec fn max_width_upto(grid: Seq<Seq<Seq<char>>>, c: int, r: int) -> int
    decreases r,
{
    if r <= 0 {
        0
    } else {
        let prev = max_width_upto(grid, c, r - 1);
        let cur = grid[r - 1][c].len() as int;
        if cur > prev {
            cur
        } else {
            prev
        }
    }
}

/// The width of column `c`: the widest cell of that column over all rows.
pub open spec fn col_width(grid: Seq<Seq<Seq<char>>>, c: int) -> int {
    max_width_upto(grid, c, grid.len() as int)
}

/// The character column at which cell column `c`'s bordered region starts
/// in a freshly compiled line: each earlier column contributes its width
/// plus one border glyph and two padding spaces.
pub open spec fn base_offset(grid: Seq<Seq<Seq<char>>>, c: int) -> int
    decreases c,
{
    if c <= 0 {
        0
    } else {
        base_offset(grid, c - 1) + col_width(grid, c - 1) + 3
    }
}

/// The horizontal offset of column boundary `c` while column `col` is
/// highlighted: boundaries after the start marker are shifted by its
/// length, boundaries after the end marker by its length too.
pub open spec fn shifted_offset(grid: Seq<Seq<Seq<char>>>, c: int, col: int) -> int {
    base_offset(grid, c) + (if c > col {
        start_marker().len() as int
    } else {
        0
    }) + (if c > col + 1 {
        end_marker().len() as int
    } else {
        0
    })
}

/// The first `c` column segments of a border line: a corner glyph followed
/// by `width + 2` fill glyphs for each column.
pub open spec fn border_prefix(grid: Seq<Seq<Seq<char>>>, c: int) -> Seq<char>
    decreases c,
{
    if c <= 0 {
        Seq::empty()
    } else {
        border_prefix(grid, c - 1) + seq!['+'] + char_rep('-', (col_width(grid, c - 1) + 2) as nat)
    }
}

/// A full border line: one segment per column plus the trailing corner.
pub open spec fn border_line(grid: Seq<Seq<Seq<char>>>) -> Seq<char> {
    border_prefix(grid, grid_cols(grid)) + seq!['+']
}

/// `cell` centred within `w` characters, left-biased on odd padding.
pub open spec fn centered(cell: Seq<char>, w: int) -> Seq<char> {
    if cell.len() <= w {
        let pad = w - cell.len();
        char_rep(' ', (pad / 2) as nat) + cell + char_rep(' ', (pad - pad / 2) as nat)
    } else {
        cell
    }
}

/// The first `c` column segments of the content line of row `r`: a
/// separator glyph, a padding space, the centred cell and another space.
pub open spec fn content_prefix(grid: Seq<Seq<Seq<char>>>, r: int, c: int) -> Seq<char>
    decreases c,
{
    if c <= 0 {
        Seq::empty()
    } else {
        content_prefix(grid, r, c - 1) + seq!['|', ' '] + centered(
            grid[r][c - 1],
            col_width(grid, c - 1),
        ) + seq![' ']
    }
}

/// A full content line for row `r`: one segment per column plus the
/// trailing separator.
pub open spec fn content_line(grid: Seq<Seq<Seq<char>>>, r: int) -> Seq<char> {
    content_prefix(grid, r, grid_cols(grid)) + seq!['|']
}

/// All freshly compiled lines: borders and content rows interleaved, so
/// line `2r` is a border and line `2r + 1` is the content of row `r`.
pub open spec fn raw_lines(grid: Seq<Seq<Seq<char>>>) -> Seq<Seq<char>> {
    Seq::new(
        (2 * grid.len() + 1) as nat,
        |i: int|
            if i % 2 == 0 {
                border_line(grid)
            } else {
                content_line(grid, (i - 1) / 2)
            },
    )
}

/// One line with the highlight markers spliced in: the start marker right
/// before character `a` and the end marker right after character `b`.
pub open spec fn hl_line(line: Seq<char>, a: int, b: int) -> Seq<char> {
    line.subrange(0, a) + start_marker() + line.subrange(a, b + 1) + end_marker() + line.subrange(
        b + 1,
        line.len() as int,
    )
}

/// All lines with the cell of row `row` highlighted: the three lines from
/// its top border to its bottom border carry the markers.
pub open spec fn hl_lines(lines: Seq<Seq<char>>, row: int, a: int, b: int) -> Seq<Seq<char>> {
    Seq::new(
        lines.len(),
        |i: int|
            if 2 * row <= i <= 2 * row + 2 {
                hl_line(lines[i], a, b)
            } else {
                lines[i]
            },
    )
}

pub proof fn lemma_max_width_upto_nonneg(grid: Seq<Seq<Seq<char>>>, c: int, r: int)
    ensures
        max_width_upto(grid, c, r) >= 0,
    decreases r,
{
    if r > 0 {
        lemma_max_width_upto_nonneg(grid, c, r - 1);
    }
}

/// Every cell is at most as wide as its column.
pub proof fn lemma_cell_le_col_width(grid: Seq<Seq<Seq<char>>>, c: int, r: int)
    requires
        0 <= r < grid.len(),
    ensures
        grid[r][c].len() <= col_width(grid, c),
{
    lemma_max_width_upto_covers(grid, c, r, grid.len() as int);
}

proof fn lemma_max_width_upto_covers(grid: Seq<Seq<Seq<char>>>, c: int, r: int, r2: int)
    requires
        0 <= r < r2,
    ensures
        grid[r][c].len() <= max_width_upto(grid, c, r2),
    decreases r2,
{
    if r < r2 - 1 {
        lemma_max_width_upto_covers(grid, c, r, r2 - 1);
    }
}

pub proof fn lemma_col_width_nonneg(grid: Seq<Seq<Seq<char>>>, c: int)
    ensures
        col_width(grid, c) >= 0,
{
    lemma_max_width_upto_nonneg(grid, c, grid.len() as int);
}

/// Column boundary offsets grow by at least three per column.
pub proof fn lemma_base_offset_mono(grid: Seq<Seq<Seq<char>>>, c1: int, c2: int)
    requires
        0 <= c1 <= c2,
    ensures
        base_offset(grid, c1) + 3 * (c2 - c1) <= base_offset(grid, c2),
    decreases c2 - c1,
{
    if c1 < c2 {
        lemma_base_offset_mono(grid, c1, c2 - 1);
        lemma_col_width_nonneg(grid, c2 - 1);
    }
}

pub proof fn lemma_base_offset_nonneg(grid: Seq<Seq<Seq<char>>>, c: int)
    requires
        0 <= c,
    ensures
        base_offset(grid, c) >= 0,
{
    lemma_base_offset_mono(grid, 0, c);
}

/// A border prefix covering `c` columns is exactly `base_offset(c)` wide.
pub proof fn lemma_border_prefix_len(grid: Seq<Seq<Seq<char>>>, c: int)
    requires
        0 <= c,
    ensures
        border_prefix(grid, c).len() == base_offset(grid, c),
    decreases c,
{
    if c > 0 {
        lemma_border_prefix_len(grid, c - 1);
        lemma_col_width_nonneg(grid, c - 1);
    }
}

/// A content prefix covering `c` columns is exactly `base_offset(c)` wide.
pub proof fn lemma_content_prefix_len(grid: Seq<Seq<Seq<char>>>, r: int, c: int)
    requires
        grid_rectangular(grid),
        0 <= r < grid.len(),
        0 <= c <= grid_cols(grid),
    ensures
        content_prefix(grid, r, c).len() == base_offset(grid, c),
    decreases c,
{
    if c > 0 {
        lemma_content_prefix_len(grid, r, c - 1);
        lemma_cell_le_col_width(grid, c - 1, r);
        lemma_col_width_nonneg(grid, c - 1);
    }
}

/// Every freshly compiled line is exactly `base_offset(cols) + 1` wide.
pub proof fn lemma_raw_line_len(grid: Seq<Seq<Seq<char>>>, i: int)
    requires
        grid_rectangular(grid),
        0 <= i < raw_lines(grid).len(),
    ensures
        raw_lines(grid)[i].len() == base_offset(grid, grid_cols(grid)) + 1,
{
    if i % 2 == 0 {
        lemma_border_prefix_len(grid, grid_cols(grid));
    } else {
        lemma_content_prefix_len(grid, (i - 1) / 2, grid_cols(grid));
    }
}

/// One highlighted line with the markers spliced back out: `a` is where
/// the start marker begins, `bcur` the shifted offset of the column
/// boundary after the cell (so the end marker occupies `[bcur + 1, bcur + 5)`).
pub open spec fn unhl_line(line: Seq<char>, a: int, bcur: int) -> Seq<char> {
    line.subrange(0, a) + line.subrange(a + 5, bcur + 1) + line.subrange(
        bcur + 5,
        line.len() as int,
    )
}

/// Round-trip law: splicing the highlight markers into a line and then
/// splicing them back out restores the line character for character.
pub proof fn lemma_unhl_inverts_hl(line: Seq<char>, a: int, b: int)
    requires
        0 <= a <= b,
        b + 1 <= line.len(),
    ensures
        unhl_line(hl_line(line, a, b), a, b + 5) == line,
{
    assert(unhl_line(hl_line(line, a, b), a, b + 5) =~= line);
}

/// All highlighted lines with the markers spliced back out of the three
/// lines of row `row`.
pub open spec fn unhl_lines(lines: Seq<Seq<char>>, row: int, a: int, bcur: int) -> Seq<Seq<char>> {
    Seq::new(
        lines.len(),
        |i: int|
            if 2 * row <= i <= 2 * row + 2 {
                unhl_line(lines[i], a, bcur)
            } else {
                lines[i]
            },
    )
}

/// Round-trip law over a whole line set: highlighting a cell's three lines
/// and then splicing the markers back out restores every line, character
/// for character.
pub proof fn lemma_unhl_inverts_hl_lines(lines: Seq<Seq<char>>, row: int, a: int, b: int)
    requires
        0 <= a <= b,
        forall|i: int|
            2 * row <= i <= 2 * row + 2 && 0 <= i < lines.len() ==> b + 1 <= (
            #[trigger] lines[i]).len(),
    ensures
        unhl_lines(hl_lines(lines, row, a, b), row, a, b + 5) == lines,
{
    assert forall|i: int| 0 <= i < lines.len() implies unhl_lines(
        hl_lines(lines, row, a, b),
        row,
        a,
        b + 5,
    )[i] == lines[i] by {
        if 2 * row <= i <= 2 * row + 2 {
            lemma_unhl_inverts_hl(lines[i], a, b);
        }
    }
    assert(unhl_lines(hl_lines(lines, row, a, b), row, a, b + 5) =~= lines);
}

/// In a highlighted line the markers stand exactly at the cell's bounds,
/// and they are the only escape characters the splice added.
pub proof fn lemma_hl_line_markers(line: Seq<char>, a: int, b: int)
    requires
        0 <= a <= b,
        b + 1 <= line.len(),
    ensures
        hl_line(line, a, b).len() == line.len() + 9,
        hl_line(line, a, b).subrange(a, a + 5) == start_marker(),
        hl_line(line, a, b).subrange(b + 6, b + 10) == end_marker(),
        count_char(line, '\x1b') == 0 ==> count_char(hl_line(line, a, b), '\x1b') == 2,
{
    let s1 = line.subrange(0, a);
    let s2 = line.subrange(a, b + 1);
    let s3 = line.subrange(b + 1, line.len() as int);
    assert(hl_line(line, a, b).subrange(a, a + 5) =~= start_marker());
    assert(hl_line(line, a, b).subrange(b + 6, b + 10) =~= end_marker());
    if count_char(line, '\x1b') == 0 {
        crate::markup::lemma_marker_counts();
        crate::markup::lemma_count_subrange_zero(line, 0, a, '\x1b');
        crate::markup::lemma_count_subrange_zero(line, a, b + 1, '\x1b');
        crate::markup::lemma_count_subrange_zero(line, b + 1, line.len() as int, '\x1b');
        lemma_count_char_concat(s1, start_marker(), '\x1b');
        lemma_count_char_concat(s1 + start_marker(), s2, '\x1b');
        lemma_count_char_concat(s1 + start_marker() + s2, end_marker(), '\x1b');
        lemma_count_char_concat(s1 + start_marker() + s2 + end_marker(), s3, '\x1b');
    }
}

proof fn lemma_border_prefix_no_esc(grid: Seq<Seq<Seq<char>>>, c: int)
    requires
        0 <= c,
    ensures
        count_char(border_prefix(grid, c), '\x1b') == 0,
    decreases c,
{
    assert(count_char(Seq::<char>::empty(), '\x1b') == 0);
    if c > 0 {
        lemma_border_prefix_no_esc(grid, c - 1);
        lemma_count_char_rep('-', (col_width(grid, c - 1) + 2) as nat, '\x1b');
        assert(seq!['+'].drop_last() =~= Seq::<char>::empty());
        assert(count_char(seq!['+'], '\x1b') == 0);
        lemma_count_char_concat(border_prefix(grid, c - 1), seq!['+'], '\x1b');
        lemma_count_char_concat(
            border_prefix(grid, c - 1) + seq!['+'],
            char_rep('-', (col_width(grid, c - 1) + 2) as nat),
            '\x1b',
        );
    }
}

proof fn lemma_centered_no_esc(cell: Seq<char>, w: int)
    requires
        count_char(cell, '\x1b') == 0,
    ensures
        count_char(centered(cell, w), '\x1b') == 0,
{
    if cell.len() <= w {
        let pad = w - cell.len();
        lemma_count_char_rep(' ', (pad / 2) as nat, '\x1b');
        lemma_count_char_rep(' ', (pad - pad / 2) as nat, '\x1b');
        lemma_count_char_concat(char_rep(' ', (pad / 2) as nat), cell, '\x1b');
        lemma_count_char_concat(
            char_rep(' ', (pad / 2) as nat) + cell,
            char_rep(' ', (pad - pad / 2) as nat),
            '\x1b',
        );
    }
}

proof fn lemma_content_prefix_no_esc(grid: Seq<Seq<Seq<char>>>, r: int, c: int)
    requires
        0 <= r < grid.len(),
        0 <= c,
        forall|k: int| 0 <= k < c ==> count_char(#[trigger] grid[r][k], '\x1b') == 0,
    ensures
        count_char(content_prefix(grid, r, c), '\x1b') == 0,
    decreases c,
{
    assert(count_char(Seq::<char>::empty(), '\x1b') == 0);
    if c > 0 {
        lemma_content_prefix_no_esc(grid, r, c - 1);
        lemma_centered_no_esc(grid[r][c - 1], col_width(grid, c - 1));
        assert(seq!['|'].drop_last() =~= Seq::<char>::empty());
        assert(count_char(seq!['|'], '\x1b') == 0);
        assert(seq!['|', ' '].drop_last() =~= seq!['|']);
        assert(count_char(seq!['|', ' '], '\x1b') == 0);
        assert(seq![' '].drop_last() =~= Seq::<char>::empty());
        assert(count_char(seq![' '], '\x1b') == 0);
        lemma_count_char_concat(content_prefix(grid, r, c - 1), seq!['|', ' '], '\x1b');
        lemma_count_char_concat(
            content_prefix(grid, r, c - 1) + seq!['|', ' '],
            centered(grid[r][c - 1], col_width(grid, c - 1)),
            '\x1b',
        );
        lemma_count_char_concat(
            content_prefix(grid, r, c - 1) + seq!['|', ' '] + centered(
                grid[r][c - 1],
                col_width(grid, c - 1),
            ),
            seq![' '],
            '\x1b',
        );
    }
}

/// Freshly compiled lines hold no escape character at all, as long as no
/// cell of the grid holds one.
pub proof fn lemma_raw_lines_no_esc(grid: Seq<Seq<Seq<char>>>)
    requires
        forall|r: int, c: int|
            0 <= r < grid.len() && 0 <= c < grid_cols(grid) ==> count_char(
                #[trigger] grid[r][c],
                '\x1b',
            ) == 0,
    ensures
        forall|i: int|
            0 <= i < raw_lines(grid).len() ==> count_char(#[trigger] raw_lines(grid)[i], '\x1b')
                == 0,
{
    assert(count_char(Seq::<char>::empty(), '\x1b') == 0);
    assert(seq!['+'].drop_last() =~= Seq::<char>::empty());
    assert(count_char(seq!['+'], '\x1b') == 0);
    assert(seq!['|'].drop_last() =~= Seq::<char>::empty());
    assert(count_char(seq!['|'], '\x1b') == 0);
    assert forall|i: int| 0 <= i < raw_lines(grid).len() implies count_char(
        #[trigger] raw_lines(grid)[i],
        '\x1b',
    ) == 0 by {
        if i % 2 == 0 {
            lemma_border_prefix_no_esc(grid, grid_cols(grid));
            lemma_count_char_concat(border_prefix(grid, grid_cols(grid)), seq!['+'], '\x1b');
        } else {
            lemma_content_prefix_no_esc(grid, (i - 1) / 2, grid_cols(grid));
            lemma_count_char_concat(
                content_prefix(grid, (i - 1) / 2, grid_cols(grid)),
                seq!['|'],
                '\x1b',
            );
        }
    }
}

/// Ties the deep view of a grid to the plain views of its rows and cells.
pub proof fn lemma_grid_view<'a>(data: Vec<Vec<&'a str>>)
    ensures
        data.deep_view().len() == data@.len(),
        forall|i: int|
            0 <= i < data@.len() ==> (#[trigger] data.deep_view()[i]) == data@[i].deep_view(),
        forall|i: int|
            0 <= i < data@.len() ==> (#[trigger] data.deep_view()[i]).len() == data@[i]@.len(),
        forall|i: int, j: int|
            #![auto]
            0 <= i < data@.len() && 0 <= j < data@[i]@.len() ==> data.deep_view()[i][j]
                == data@[i]@[j]@,
{
}

/// The widest entry among the first `r` entries of `opts`.
pub open spec fn max_len_upto(opts: Seq<Seq<char>>, r: int) -> int
    decreases r,
{
    if r <= 0 {
        0
    } else {
        let prev = max_len_upto(opts, r - 1);
        let cur = opts[r - 1].len() as int;
        if cur > prev {
            cur
        } else {
            prev
        }
    }
}

/// A list of options to be drawn over the table, with the space it needs.
pub struct SubMenu {
    options: Vec<&'static str>,
    height: usize,
    width: usize,
}

impl SubMenu {
    pub closed spec fn spec_options(self) -> Seq<Seq<char>> {
        self.options.deep_view()
    }

    pub closed spec fn spec_height(self) -> int {
        self.height as int
    }

    pub closed spec fn spec_width(self) -> int {
        self.width as int
    }

    /// Builds a submenu: two lines per option, as wide as its widest option.
    pub fn new(options: Vec<&'static str>) -> (r: SubMenu)
        requires
            options@.len() > 0,
            2 * options@.len() <= usize::MAX,
        ensures
            r.spec_options() == options.deep_view(),
            r.spec_height() == 2 * options@.len(),
            r.spec_width() == max_len_upto(options.deep_view(), options@.len() as int),
    {
        let height = options.len() * 2;
        let mut width: usize = 0;
        let mut i: usize = 0;
        while i < options.len()
            invariant
                i <= options@.len(),
                width == max_len_upto(options.deep_view(), i as int),
            decreases options@.len() - i,
        {
            let l = options[i].unicode_len();
            if l > width {
                width = l;
            }
            i = i + 1;
        }
        SubMenu { options, height, width }
    }
}

/// Builds a copy of `line` with the highlight markers spliced in: the
/// start marker right before character `a`, the end marker right after
/// character `b`.
fn splice_in_markers(line: &String, a: usize, b: usize) -> (r: String)
    requires
        a <= b,
        b + 1 <= line@.len(),
    ensures
        r@ == hl_line(line@, a as int, b as int),
{
    let n = line.as_str().unicode_len();
    let pre = line.as_str().substring_char(0, a);
    let mid = line.as_str().substring_char(a, b + 1);
    let post = line.as_str().substring_char(b + 1, n);
    let mut r = String::new();
    r.append(pre);
    r.append(highlight_start());
    r.append(mid);
    r.append(highlight_end());
    r.append(post);
    proof {
        assert(r@ =~= hl_line(line@, a as int, b as int));
    }
    r
}

/// Builds a copy of the highlighted `line` with the markers spliced back
/// out: `a` is where the start marker begins, `bcur` the shifted offset of
/// the column boundary after the cell.
fn splice_out_markers(line: &String, a: usize, bcur: usize) -> (r: String)
    requires
        a + START_MARKER_LEN <= bcur + 1,
        bcur + 1 + END_MARKER_LEN <= line@.len(),
    ensures
        r@ == unhl_line(line@, a as int, bcur as int),
{
    let n = line.as_str().unicode_len();
    let pre = line.as_str().substring_char(0, a);
    let mid = line.as_str().substring_char(a + START_MARKER_LEN, bcur + 1);
    let post = line.as_str().substring_char(bcur + 1 + END_MARKER_LEN, n);
    let mut r = String::new();
    r.append(pre);
    r.append(mid);
    r.append(post);
    proof {
        assert(r@ =~= unhl_line(line@, a as int, bcur as int));
    }
    r
}

/// A compiled table: the immutable grid, the rendered lines, the offset
/// tables that locate each cell inside them, and the single highlighted
/// cell, if any.
pub struct Table {
    data: Vec<Vec<&'static str>>,
    selected_grid: Option<(usize, usize)>,
    col_widths: Vec<usize>,
    col_offsets: Vec<usize>,
    row_offsets: Vec<usize>,
    raw_data: Vec<String>,
    displayed_data: Vec<String>,
}

impl Table {
    /// The grid of cell contents, as sequences of characters.
    pub closed spec fn grid(self) -> Seq<Seq<Seq<char>>> {
        self.data.deep_view()
    }

    /// The number of grid rows.
    pub closed spec fn rows(self) -> int {
        self.data@.len() as int
    }

    /// The number of grid columns.
    pub closed spec fn cols(self) -> int {
        self.col_widths@.len() as int
    }

    /// The highlighted cell, if any.
    pub closed spec fn selection(self) -> Option<(int, int)> {
        match self.selected_grid {
            None => None,
            Some((r, c)) => Some((r as int, c as int)),
        }
    }

    /// The rendered lines as they currently stand, markers included.
    pub closed spec fn lines(self) -> Seq<Seq<char>> {
        self.displayed_data.deep_view()
    }

    /// The rendered lines as compiled, before any highlighting.
    pub closed spec fn raw_view(self) -> Seq<Seq<char>> {
        self.raw_data.deep_view()
    }

    /// The horizontal offset table.
    pub closed spec fn offsets(self) -> Seq<int> {
        self.col_offsets@.map_values(|v: usize| v as int)
    }

    /// The column width table.
    pub closed spec fn widths(self) -> Seq<int> {
        self.col_widths@.map_values(|v: usize| v as int)
    }

    /// Structural well-formedness: the grid is rectangular, the width and
    /// offset tables describe it, and the offsets carry exactly the shift
    /// of the current selection's markers.
    pub closed spec fn wf_base(self) -> bool {
        let g = self.grid();
        &&& grid_rectangular(g)
        &&& self.cols() == grid_cols(g)
        &&& forall|c: int| 0 <= c < self.cols() ==> #[trigger] self.widths()[c] == col_width(g, c)
        &&& self.col_offsets@.len() == self.cols() + 1
        &&& self.row_offsets@.len() == self.rows() + 1
        &&& forall|r: int| 0 <= r <= self.rows() ==> #[trigger] self.row_offsets@[r] == 2 * r
        &&& base_offset(g, self.cols()) + 10 <= usize::MAX
        &&& match self.selected_grid {
            None => forall|c: int|
                0 <= c <= self.cols() ==> #[trigger] self.offsets()[c] == base_offset(g, c),
            Some((row, col)) => {
                &&& (row as int) < self.rows()
                &&& (col as int) < self.cols()
                &&& forall|c: int|
                    0 <= c <= self.cols() ==> #[trigger] self.offsets()[c] == shifted_offset(
                        g,
                        c,
                        col as int,
                    )
            },
        }
    }

    /// The table has been compiled: the raw lines are the laid-out grid
    /// and the displayed lines are the raw lines with the markers of the
    /// current selection, if any, spliced in.
    pub closed spec fn compiled(self) -> bool {
        let g = self.grid();
        &&& self.wf_base()
        &&& self.raw_view() == raw_lines(g)
        &&& match self.selected_grid {
            None => self.lines() == raw_lines(g),
            Some((row, col)) => self.lines() == hl_lines(
                raw_lines(g),
                row as int,
                base_offset(g, col as int),
                base_offset(g, col as int + 1),
            ),
        }
    }

    /// Builds a table from a grid of cells, computing the width table and
    /// both offset tables; rejects a grid whose rows differ in length.
    pub fn new(data: Vec<Vec<&'static str>>) -> (r: Result<Table, TableError>)
        requires
            grid_rectangular(data.deep_view()) ==> base_offset(
                data.deep_view(),
                grid_cols(data.deep_view()),
            ) + 10 <= usize::MAX,
            grid_rectangular(data.deep_view()) ==> 2 * data@.len() <= usize::MAX,
        ensures
            r is Ok <==> grid_rectangular(data.deep_view()),
            r matches Ok(t) ==> {
                &&& t.wf_base()
                &&& t.grid() == data.deep_view()
                &&& t.rows() == data@.len()
                &&& t.cols() == grid_cols(data.deep_view())
                &&& t.selection() is None
                &&& t.lines().len() == 0
                &&& t.raw_view().len() == 0
            },
    {
        let ghost g = data.deep_view();
        proof {
            lemma_grid_view(data);
        }
        let rows = data.len();
        let cols = if rows == 0 {
            0
        } else {
            data[0].len()
        };
        assert(cols == grid_cols(g));

        let mut r: usize = 0;
        while r < rows
            invariant
                r <= rows,
                forall|k: int| 0 <= k < r ==> (#[trigger] g[k]).len() == cols,
            decreases rows - r,
        {
            if data[r].len() != cols {
                assert(g[r as int].len() != cols);
                assert(!grid_rectangular(g));
                return Err(TableError::NonRectangular);
            }
            r = r + 1;
        }
        assert(grid_rectangular(g));

        let mut col_widths: Vec<usize> = Vec::new();
        let mut c: usize = 0;
        while c < cols
            invariant
                c <= cols,
                col_widths@.len() == c,
                forall|k: int| 0 <= k < c ==> #[trigger] col_widths@[k] == col_width(g, k),
            decreases cols - c,
        {
            let mut w: usize = 0;
            let mut r2: usize = 0;
            while r2 < rows
                invariant
                    r2 <= rows,
                    w == max_width_upto(g, c as int, r2 as int),
                decreases rows - r2,
            {
                assert(data@[r2 as int]@.len() == g[r2 as int].len());
                let l = data[r2][c].unicode_len();
                if l > w {
                    w = l;
                }
                r2 = r2 + 1;
            }
            col_widths.push(w);
            c = c + 1;
        }

        let mut col_offsets: Vec<usize> = Vec::new();
        col_offsets.push(0);
        let mut acc: usize = 0;
        let mut c2: usize = 0;
        while c2 < cols
            invariant
                c2 <= cols,
                col_offsets@.len() == c2 + 1,
                acc == base_offset(g, c2 as int),
                forall|k: int| 0 <= k <= c2 ==> #[trigger] col_offsets@[k] == base_offset(g, k),
            decreases cols - c2,
        {
            proof {
                lemma_base_offset_mono(g, c2 as int + 1, cols as int);
            }
            acc = acc + col_widths[c2] + 3;
            col_offsets.push(acc);
            c2 = c2 + 1;
        }

        let mut row_offsets: Vec<usize> = Vec::new();
        let mut r3: usize = 0;
        while r3 < rows + 1
            invariant
                r3 <= rows + 1,
                row_offsets@.len() == r3,
                forall|k: int| 0 <= k < r3 ==> #[trigger] row_offsets@[k] == 2 * k,
            decreases rows + 1 - r3,
        {
            row_offsets.push(2 * r3);
            r3 = r3 + 1;
        }

        Ok(
            Table {
                data,
                selected_grid: None,
                col_widths,
                col_offsets,
                row_offsets,
                raw_data: Vec::new(),
                displayed_data: Vec::new(),
            },
        )
    }

    /// Lays the grid out: produces the bordered lines, resets the
    /// horizontal offsets to their base values and clears the selection,
    /// so the result is a pure function of the grid.
    pub fn compile(&mut self)
        requires
            old(self).wf_base(),
        ensures
            final(self).compiled(),
            final(self).grid() == old(self).grid(),
            final(self).rows() == old(self).rows(),
            final(self).cols() == old(self).cols(),
            final(self).selection() is None,
            final(self).lines() == raw_lines(old(self).grid()),
            final(self).raw_view() == raw_lines(old(self).grid()),
            forall|c: int|
                0 <= c <= final(self).cols() ==> #[trigger] final(self).offsets()[c] == base_offset(
                    old(self).grid(),
                    c,
                ),
    {
        let ghost g = self.data.deep_view();
        proof {
            lemma_grid_view(self.data);
            reveal_strlit("+");
            reveal_strlit("-");
            reveal_strlit("|");
            reveal_strlit("| ");
            reveal_strlit(" ");
            assert("+"@ =~= seq!['+']);
            assert("|"@ =~= seq!['|']);
            assert("| "@ =~= seq!['|', ' ']);
        }
        let rows = self.data.len();
        let cols = self.col_widths.len();

        // Reset the horizontal offsets to their base values.
        let mut col_offsets: Vec<usize> = Vec::new();
        col_offsets.push(0);
        let mut acc: usize = 0;
        let mut c0: usize = 0;
        while c0 < cols
            invariant
                c0 <= cols,
                col_offsets@.len() == c0 + 1,
                acc == base_offset(g, c0 as int),
                forall|k: int| 0 <= k <= c0 ==> #[trigger] col_offsets@[k] == base_offset(g, k),
            decreases cols - c0,
        {
            proof {
                assert(self.widths()[c0 as int] == col_width(g, c0 as int));
                assert(self.widths()[c0 as int] == self.col_widths@[c0 as int]);
                lemma_base_offset_nonneg(g, c0 as int);
                lemma_base_offset_mono(g, c0 as int + 1, cols as int);
                assert(base_offset(g, c0 as int + 1) == base_offset(g, c0 as int) + col_width(
                    g,
                    c0 as int,
                ) + 3);
            }
            acc = acc + self.col_widths[c0] + 3;
            col_offsets.push(acc);
            c0 = c0 + 1;
        }

        // The border line shared by every even-numbered output line.
        let mut edge_parts: Vec<String> = Vec::new();
        let mut c1: usize = 0;
        while c1 < cols
            invariant
                c1 <= cols,
                concat_segments(edge_parts.deep_view()) == border_prefix(g, c1 as int),
            decreases cols - c1,
        {
            proof {
                assert(self.widths()[c1 as int] == col_width(g, c1 as int));
                assert(self.widths()[c1 as int] == self.col_widths@[c1 as int]);
                lemma_base_offset_nonneg(g, c1 as int);
                lemma_base_offset_mono(g, c1 as int + 1, cols as int);
                assert(base_offset(g, c1 as int + 1) == base_offset(g, c1 as int) + col_width(
                    g,
                    c1 as int,
                ) + 3);
            }
            let mut seg = String::new();
            seg.append("+");
            push_repeat(&mut seg, "-", self.col_widths[c1] + 2);
            let ghost before = edge_parts.deep_view();
            let ghost segv = seg@;
            edge_parts.push(seg);
            proof {
                assert(edge_parts.deep_view() =~= before.push(segv));
                lemma_concat_segments_push(before, segv);
                assert(border_prefix(g, c1 as int) + segv =~= border_prefix(g, c1 as int + 1));
            }
            c1 = c1 + 1;
        }
        let mut edge = join_segments(&edge_parts);
        edge.append("+");
        assert(edge@ == border_line(g));

        // Interleave border and content lines.
        let mut raw: Vec<String> = Vec::new();
        raw.push(edge.clone());
        assert(raw.deep_view()[0] == raw_lines(g)[0]);
        let mut r: usize = 0;
        while r < rows
            invariant
                r <= rows,
                raw@.len() == 2 * r + 1,
                forall|i: int| 0 <= i < raw@.len() ==> #[trigger] raw.deep_view()[i] == raw_lines(
                    g,
                )[i],
            decreases rows - r,
        {
            let mut row_parts: Vec<String> = Vec::new();
            let mut c2: usize = 0;
            while c2 < cols
                invariant
                    c2 <= cols,
                    concat_segments(row_parts.deep_view()) == content_prefix(
                        g,
                        r as int,
                        c2 as int,
                    ),
                decreases cols - c2,
            {
                proof {
                    assert(self.data@[r as int]@.len() == g[r as int].len());
                    lemma_cell_le_col_width(g, c2 as int, r as int);
                    assert(self.widths()[c2 as int] == col_width(g, c2 as int));
                    assert(self.widths()[c2 as int] == self.col_widths@[c2 as int]);
                    assert(self.data.deep_view()[r as int][c2 as int] == self.data@[r as int]@[c2 as int]@);
                }
                let cell = self.data[r][c2];
                let len = cell.unicode_len();
                let w = self.col_widths[c2];
                let left = (w - len) / 2;
                let right = w - len - left;
                let mut seg = String::new();
                seg.append("| ");
                push_repeat(&mut seg, " ", left);
                seg.append(cell);
                push_repeat(&mut seg, " ", right);
                seg.append(" ");
                let ghost before = row_parts.deep_view();
                let ghost segv = seg@;
                row_parts.push(seg);
                proof {
                    assert(centered(cell@, w as int) == char_rep(' ', left as nat) + cell@
                        + char_rep(' ', right as nat));
                    assert(segv =~= seq!['|', ' '] + centered(cell@, w as int) + seq![' ']);
                    assert(row_parts.deep_view() =~= before.push(segv));
                    lemma_concat_segments_push(before, segv);
                    assert(content_prefix(g, r as int, c2 as int) + segv =~= content_prefix(
                        g,
                        r as int,
                        c2 as int + 1,
                    ));
                }
                c2 = c2 + 1;
            }
            let mut row_str = join_segments(&row_parts);
            row_str.append("|");
            assert(row_str@ == content_line(g, r as int));
            let ghost rbefore = raw.deep_view();
            let ghost rowv = row_str@;
            raw.push(row_str);
            let edge2 = edge.clone();
            raw.push(edge2);
            proof {
                assert(raw.deep_view() =~= rbefore.push(rowv).push(edge@));
                assert((2 * (r as int) + 1) % 2 == 1 && (2 * (r as int) + 2) % 2 == 0)
                    by (nonlinear_arith);
                assert((2 * (r as int) + 1 - 1) / 2 == r as int);
                assert(raw.deep_view()[2 * (r as int) + 1] == raw_lines(g)[2 * (r as int) + 1]);
                assert(raw.deep_view()[2 * (r as int) + 2] == raw_lines(g)[2 * (r as int) + 2]);
            }
            r = r + 1;
        }
        assert(raw.deep_view() =~= raw_lines(g));

        // The displayed lines start as a copy of the raw lines.
        let mut disp: Vec<String> = Vec::new();
        let mut i: usize = 0;
        while i < raw.len()
            invariant
                i <= raw@.len(),
                disp@.len() == i,
                forall|k: int|
                    0 <= k < i ==> #[trigger] disp.deep_view()[k] == raw.deep_view()[k],
            decreases raw@.len() - i,
        {
            let ghost dbefore = disp.deep_view();
            let line = raw[i].clone();
            disp.push(line);
            proof {
                assert(disp.deep_view() =~= dbefore.push(raw@[i as int]@));
            }
            i = i + 1;
        }
        assert(disp.deep_view() =~= raw.deep_view());

        self.col_offsets = col_offsets;
        self.selected_grid = None;
        self.raw_data = raw;
        self.displayed_data = disp;
        proof {
            assert(self.grid() == g);
            assert(self.widths() == old(self).widths());
            assert(self.row_offsets@ == old(self).row_offsets@);
            assert forall|c: int| 0 <= c <= self.cols() implies #[trigger] self.offsets()[c]
                == base_offset(g, c) by {
                assert(self.col_offsets@[c] == base_offset(g, c));
            }
            assert(self.raw_view() =~= raw_lines(g));
            assert(self.lines() =~= raw_lines(g));
            assert(self.wf_base());
        }
    }

    /// The number of grid rows.
    pub fn height(&self) -> (r: usize)
        requires
            self.wf_base(),
        ensures
            r == self.rows(),
    {
        self.row_offsets.len() - 1
    }

    /// The number of grid columns.
    pub fn width(&self) -> (r: usize)
        requires
            self.wf_base(),
        ensures
            r == self.cols(),
    {
        self.col_offsets.len() - 1
    }

    /// Moves the highlight to the cell at `(row, col)`: un-highlights the
    /// previous selection, if any, then highlights the new cell, so at most
    /// one cell is ever highlighted.
    pub fn move_cell(&mut self, row: usize, col: usize)
        requires
            old(self).compiled(),
            row < old(self).rows(),
            col < old(self).cols(),
        ensures
            final(self).compiled(),
            final(self).grid() == old(self).grid(),
            final(self).rows() == old(self).rows(),
            final(self).cols() == old(self).cols(),
            final(self).raw_view() == old(self).raw_view(),
            final(self).selection() == Some((row as int, col as int)),
            final(self).lines() == hl_lines(
                raw_lines(old(self).grid()),
                row as int,
                base_offset(old(self).grid(), col as int),
                base_offset(old(self).grid(), col as int + 1),
            ),
    {
        if self.selected_grid.is_some() {
            self.unhighlight_cell();
        }
        self.highlight_cell(row, col);
    }

    /// Splices the highlight markers into the three lines around the cell
    /// at `(row, col)` and shifts every later column boundary offset by the
    /// length of each marker inserted before it.
    fn highlight_cell(&mut self, row: usize, col: usize)
        requires
            old(self).compiled(),
            old(self).selected_grid is None,
            row < old(self).rows(),
            col < old(self).cols(),
        ensures
            final(self).compiled(),
            final(self).grid() == old(self).grid(),
            final(self).rows() == old(self).rows(),
            final(self).cols() == old(self).cols(),
            final(self).raw_view() == old(self).raw_view(),
            final(self).selection() == Some((row as int, col as int)),
            final(self).lines() == hl_lines(
                raw_lines(old(self).grid()),
                row as int,
                base_offset(old(self).grid(), col as int),
                base_offset(old(self).grid(), col as int + 1),
            ),
    {
        let ghost g = self.data.deep_view();
        let ghost rowsg = self.rows();
        let ghost colsg = self.cols();
        proof {
            lemma_grid_view(self.data);
            assert(self.offsets()[col as int] == base_offset(g, col as int));
            assert(self.offsets()[col as int + 1] == base_offset(g, col as int + 1));
            assert(self.offsets()[col as int] == self.col_offsets@[col as int]);
            assert(self.offsets()[col as int + 1] == self.col_offsets@[col as int + 1]);
            lemma_base_offset_mono(g, col as int + 1, colsg);
            lemma_base_offset_nonneg(g, col as int);
            lemma_col_width_nonneg(g, col as int);
        }
        let ncols = self.col_widths.len();
        assert(col < ncols && self.col_offsets@.len() == ncols + 1);
        let a = self.col_offsets[col];
        let b = self.col_offsets[col + 1];
        let line_start = self.row_offsets[row];
        let line_end = self.row_offsets[row + 1];
        assert(line_start == 2 * (row as int) && line_end == 2 * (row as int) + 2);
        proof {
            assert(g.len() == rowsg);
            assert(raw_lines(g).len() == 2 * rowsg + 1);
            assert(self.lines().len() == self.displayed_data@.len());
        }
        assert(self.displayed_data@.len() == 2 * rowsg + 1);

        let mut i = line_start;
        while i <= line_end
            invariant
                line_start <= i <= line_end + 1,
                self.data == old(self).data,
                self.col_widths == old(self).col_widths,
                self.col_offsets == old(self).col_offsets,
                self.row_offsets == old(self).row_offsets,
                self.raw_data == old(self).raw_data,
                self.selected_grid == old(self).selected_grid,
                self.displayed_data@.len() == 2 * rowsg + 1,
                forall|k: int|
                    0 <= k < self.lines().len() && !(line_start <= k < i)
                        ==> #[trigger] self.lines()[k] == raw_lines(g)[k],
                forall|k: int|
                    line_start <= k < i ==> #[trigger] self.lines()[k] == hl_line(
                        raw_lines(g)[k],
                        a as int,
                        b as int,
                    ),
            decreases line_end + 1 - i,
        {
            proof {
                lemma_raw_line_len(g, i as int);
                assert(self.lines()[i as int] == self.displayed_data@[i as int]@);
                assert(self.lines()[i as int] == raw_lines(g)[i as int]);
            }
            let nl = splice_in_markers(&self.displayed_data[i], a, b);
            let ghost dbefore = self.displayed_data.deep_view();
            self.displayed_data.set(i, nl);
            proof {
                assert(self.displayed_data.deep_view() =~= dbefore.update(
                    i as int,
                    hl_line(raw_lines(g)[i as int], a as int, b as int),
                ));
            }
            i = i + 1;
        }

        proof {
            assert(self.lines() =~= hl_lines(raw_lines(g), row as int, a as int, b as int));
            assert(self.displayed_data.deep_view() == self.lines());
        }
        let ghost dafter = self.displayed_data;
        let len = self.col_offsets.len();
        proof {
            assert forall|k: int| 0 <= k < len implies #[trigger] self.col_offsets@[k]
                == base_offset(g, k) by {
                assert(old(self).offsets()[k] == base_offset(g, k));
                assert(old(self).offsets()[k] == old(self).col_offsets@[k]);
            }
        }
        let mut j = col + 1;
        while j < len
            invariant
                col + 1 <= j <= len,
                self.data == old(self).data,
                self.col_widths == old(self).col_widths,
                self.row_offsets == old(self).row_offsets,
                self.raw_data == old(self).raw_data,
                self.selected_grid == old(self).selected_grid,
                self.displayed_data == dafter,
                self.col_offsets@.len() == len,
                forall|k: int|
                    0 <= k < j && k > col ==> #[trigger] self.col_offsets@[k] == base_offset(g, k)
                        + 5,
                forall|k: int|
                    (0 <= k <= col || j <= k < len) ==> #[trigger] self.col_offsets@[k]
                        == base_offset(g, k),
            decreases len - j,
        {
            proof {
                assert(self.col_offsets@[j as int] == base_offset(g, j as int));
                lemma_base_offset_nonneg(g, j as int);
                lemma_base_offset_mono(g, j as int, colsg);
            }
            let v = self.col_offsets[j];
            self.col_offsets.set(j, v + START_MARKER_LEN);
            j = j + 1;
        }

        let mut j2 = col + 2;
        while j2 < len
            invariant
                col + 2 <= j2 <= len,
                self.data == old(self).data,
                self.col_widths == old(self).col_widths,
                self.row_offsets == old(self).row_offsets,
                self.raw_data == old(self).raw_data,
                self.selected_grid == old(self).selected_grid,
                self.displayed_data == dafter,
                self.col_offsets@.len() == len,
                forall|k: int|
                    col < k < len ==> #[trigger] self.col_offsets@[k] == base_offset(g, k) + 5 + (
                    if col + 2 <= k < j2 {
                        4int
                    } else {
                        0int
                    }),
                forall|k: int|
                    0 <= k <= col ==> #[trigger] self.col_offsets@[k] == base_offset(g, k),
            decreases len - j2,
        {
            proof {
                lemma_base_offset_nonneg(g, j2 as int);
                lemma_base_offset_mono(g, j2 as int, colsg);
            }
            let v = self.col_offsets[j2];
            self.col_offsets.set(j2, v + END_MARKER_LEN);
            j2 = j2 + 1;
        }

        self.selected_grid = Some((row, col));
        proof {
            assert(self.grid() == g);
            assert(self.widths() == old(self).widths());
            assert(self.row_offsets@ == old(self).row_offsets@);
            assert(self.displayed_data.deep_view() == dafter.deep_view());
            assert(self.lines() == hl_lines(raw_lines(g), row as int, a as int, b as int));
            assert forall|c: int| 0 <= c <= self.cols() implies #[trigger] self.offsets()[c]
                == shifted_offset(g, c, col as int) by {
                assert(self.offsets()[c] == self.col_offsets@[c]);
            }
            assert(self.wf_base());
            assert(self.compiled());
        }
    }

    /// Splices the markers of the current selection back out of the lines
    /// and lowers the later column boundary offsets by the same lengths the
    /// markers had added, restoring the freshly compiled state exactly.
    fn unhighlight_cell(&mut self)
        requires
            old(self).compiled(),
            old(self).selected_grid is Some,
        ensures
            final(self).compiled(),
            final(self).grid() == old(self).grid(),
            final(self).rows() == old(self).rows(),
            final(self).cols() == old(self).cols(),
            final(self).raw_view() == old(self).raw_view(),
            final(self).selection() is None,
            final(self).lines() == raw_lines(old(self).grid()),
            forall|c: int|
                0 <= c <= final(self).cols() ==> #[trigger] final(self).offsets()[c] == base_offset(
                    old(self).grid(),
                    c,
                ),
    {
        let ghost g = self.data.deep_view();
        let ghost rowsg = self.rows();
        let ghost colsg = self.cols();
        let (row, col) = self.selected_grid.unwrap();
        proof {
            lemma_grid_view(self.data);
            assert(self.offsets()[col as int] == shifted_offset(g, col as int, col as int));
            assert(self.offsets()[col as int + 1] == shifted_offset(
                g,
                col as int + 1,
                col as int,
            ));
            assert(self.offsets()[col as int] == self.col_offsets@[col as int]);
            assert(self.offsets()[col as int + 1] == self.col_offsets@[col as int + 1]);
            lemma_base_offset_mono(g, col as int + 1, colsg);
            lemma_base_offset_nonneg(g, col as int);
            lemma_col_width_nonneg(g, col as int);
        }
        let ncols = self.col_widths.len();
        assert(col < ncols && self.col_offsets@.len() == ncols + 1);
        let a = self.col_offsets[col];
        let bcur = self.col_offsets[col + 1];
        let ghost b = base_offset(g, col as int + 1);
        let line_start = self.row_offsets[row];
        let line_end = self.row_offsets[row + 1];
        assert(line_start == 2 * (row as int) && line_end == 2 * (row as int) + 2);
        proof {
            assert(g.len() == rowsg);
            assert(raw_lines(g).len() == 2 * rowsg + 1);
            assert(self.lines().len() == self.displayed_data@.len());
        }
        assert(self.displayed_data@.len() == 2 * rowsg + 1);

        let mut i = line_start;
        while i <= line_end
            invariant
                line_start <= i <= line_end + 1,
                self.data == old(self).data,
                self.col_widths == old(self).col_widths,
                self.col_offsets == old(self).col_offsets,
                self.row_offsets == old(self).row_offsets,
                self.raw_data == old(self).raw_data,
                self.selected_grid == old(self).selected_grid,
                self.displayed_data@.len() == 2 * rowsg + 1,
                forall|k: int|
                    line_start <= k < i ==> #[trigger] self.lines()[k] == raw_lines(g)[k],
                forall|k: int|
                    0 <= k < self.lines().len() && !(line_start <= k < i) ==> #[trigger] self.lines()[k] == hl_lines(
                        raw_lines(g),
                        row as int,
                        a as int,
                        b,
                    )[k],
            decreases line_end + 1 - i,
        {
            proof {
                lemma_raw_line_len(g, i as int);
                lemma_unhl_inverts_hl(raw_lines(g)[i as int], a as int, b);
                assert(self.lines()[i as int] == self.displayed_data@[i as int]@);
                assert(self.lines()[i as int] == hl_lines(raw_lines(g), row as int, a as int, b)[
                    i as int
                ]);
                assert(self.lines()[i as int] == hl_line(raw_lines(g)[i as int], a as int, b));
            }
            let nl = splice_out_markers(&self.displayed_data[i], a, bcur);
            let ghost dbefore = self.displayed_data.deep_view();
            self.displayed_data.set(i, nl);
            proof {
                assert(self.displayed_data.deep_view() =~= dbefore.update(
                    i as int,
                    raw_lines(g)[i as int],
                ));
            }
            i = i + 1;
        }

        proof {
            assert(self.lines() =~= raw_lines(g));
            assert(self.displayed_data.deep_view() == self.lines());
        }
        let ghost dafter = self.displayed_data;
        let len = self.col_offsets.len();
        proof {
            assert forall|k: int| 0 <= k < len implies #[trigger] self.col_offsets@[k]
                == shifted_offset(g, k, col as int) by {
                assert(old(self).offsets()[k] == shifted_offset(g, k, col as int));
                assert(old(self).offsets()[k] == old(self).col_offsets@[k]);
            }
        }
        let mut j = col + 1;
        while j < len
            invariant
                col + 1 <= j <= len,
                self.data == old(self).data,
                self.col_widths == old(self).col_widths,
                self.row_offsets == old(self).row_offsets,
                self.raw_data == old(self).raw_data,
                self.selected_grid == old(self).selected_grid,
                self.displayed_data == dafter,
                self.col_offsets@.len() == len,
                forall|k: int|
                    col < k < j ==> #[trigger] self.col_offsets@[k] == base_offset(g, k) + (
                    if col + 2 <= k {
                        4int
                    } else {
                        0int
                    }),
                forall|k: int|
                    (0 <= k <= col || j <= k < len) ==> #[trigger] self.col_offsets@[k]
                        == shifted_offset(g, k, col as int),
            decreases len - j,
        {
            proof {
                lemma_base_offset_nonneg(g, j as int);
                lemma_base_offset_mono(g, j as int, colsg);
            }
            let v = self.col_offsets[j];
            self.col_offsets.set(j, v - START_MARKER_LEN);
            j = j + 1;
        }

        let mut j2 = col + 2;
        while j2 < len
            invariant
                col + 2 <= j2 <= len,
                self.data == old(self).data,
                self.col_widths == old(self).col_widths,
                self.row_offsets == old(self).row_offsets,
                self.raw_data == old(self).raw_data,
                self.selected_grid == old(self).selected_grid,
                self.displayed_data == dafter,
                self.col_offsets@.len() == len,
                forall|k: int|
                    col < k < j2 ==> #[trigger] self.col_offsets@[k] == base_offset(g, k),
                forall|k: int|
                    0 <= k <= col ==> #[trigger] self.col_offsets@[k] == base_offset(g, k),
                forall|k: int|
                    j2 <= k < len ==> #[trigger] self.col_offsets@[k] == base_offset(g, k) + 4,
            decreases len - j2,
        {
            proof {
                lemma_base_offset_nonneg(g, j2 as int);
                lemma_base_offset_mono(g, j2 as int, colsg);
            }
            let v = self.col_offsets[j2];
            self.col_offsets.set(j2, v - END_MARKER_LEN);
            j2 = j2 + 1;
        }

        self.selected_grid = None;
        proof {
            assert(self.grid() == g);
            assert(self.widths() == old(self).widths());
            assert(self.row_offsets@ == old(self).row_offsets@);
            assert(self.displayed_data.deep_view() == dafter.deep_view());
            assert(self.lines() == raw_lines(g));
            assert forall|c: int| 0 <= c <= self.cols() implies #[trigger] self.offsets()[c]
                == base_offset(g, c) by {
                assert(self.offsets()[c] == self.col_offsets@[c]);
            }
            assert(self.wf_base());
            assert(self.compiled());
        }
    }

    /// The value of the highlighted cell, if one is highlighted.
    pub fn get_value(&self) -> (r: Option<&str>)
        requires
            self.wf_base(),
        ensures
            match self.selection() {
                None => r is None,
                Some((row, col)) => r matches Some(v) && v@ == self.grid()[row][col],
            },
    {
        proof {
            lemma_grid_view(self.data);
        }
        if let Some((r, c)) = self.selected_grid {
            assert(self.grid()[r as int].len() == self.cols());
            assert(self.data@[r as int]@.len() == self.grid()[r as int].len());
            Some(self.data[r][c])
        } else {
            None
        }
    }

    /// Reserves screen space for a submenu; the placement is fixed.
    pub fn allocate_for_submenu(&self, submenu: SubMenu) -> (r: ((usize, usize), (usize, usize)))
        ensures
            r == (((3usize, 3usize), (3usize, 3usize))),
    {
        ((3, 3), (3, 3))
    }

    /// The rendered lines as they currently stand, for a caller to draw.
    pub fn displayed_lines(&self) -> (r: &Vec<String>)
        ensures
            r.deep_view() == self.lines(),
    {
        &self.displayed_data
    }

    /// The horizontal offset table as it currently stands.
    pub fn offset_table(&self) -> (r: &Vec<usize>)
        ensures
            r@.len() == self.offsets().len(),
            forall|c: int| 0 <= c < r@.len() ==> #[trigger] r@[c] == self.offsets()[c],
    {
        &self.col_offsets
    }

    /// The column width table.
    pub fn width_table(&self) -> (r: &Vec<usize>)
        ensures
            r@.len() == self.widths().len(),
            forall|c: int| 0 <= c < r@.len() ==> #[trigger] r@[c] == self.widths()[c],
    {
        &self.col_widths
    }
}

/// Offset monotonicity law: after any sequence of moves the horizontal
/// offsets stay strictly increasing, and neighbouring boundaries stay at
/// least the column width plus the fixed border overhead of three apart.
pub proof fn lemma_offsets_monotonic(t: Table)
    requires
        t.wf_base(),
    ensures
        forall|c: int|
            0 <= c < t.cols() ==> #[trigger] t.offsets()[c + 1] - t.offsets()[c] >= t.widths()[c]
                + 3,
        forall|c: int| 0 <= c < t.cols() ==> #[trigger] t.offsets()[c] < t.offsets()[c + 1],
{
    let g = t.grid();
    assert forall|c: int| 0 <= c < t.cols() implies #[trigger] t.offsets()[c + 1] - t.offsets()[c]
        >= t.widths()[c] + 3 by {
        assert(base_offset(g, c + 1) == base_offset(g, c) + col_width(g, c) + 3);
        assert(t.widths()[c] == col_width(g, c));
        match t.selected_grid {
            None => {
                assert(t.offsets()[c] == base_offset(g, c));
                assert(t.offsets()[c + 1] == base_offset(g, c + 1));
            },
            Some((row, col)) => {
                assert(t.offsets()[c] == shifted_offset(g, c, col as int));
                assert(t.offsets()[c + 1] == shifted_offset(g, c + 1, col as int));
            },
        }
    }
    assert forall|c: int| 0 <= c < t.cols() implies #[trigger] t.offsets()[c] < t.offsets()[c + 1] by {
        lemma_col_width_nonneg(g, c);
        assert(t.offsets()[c + 1] - t.offsets()[c] >= t.widths()[c] + 3);
    }
}

/// Compile determinism law: two compiled tables over the same grid render
/// the same lines and carry the same width and offset tables.
pub proof fn lemma_compile_deterministic(t1: Table, t2: Table)
    requires
        t1.compiled(),
        t2.compiled(),
        t1.grid() == t2.grid(),
        t1.selection() is None,
        t2.selection() is None,
    ensures
        t1.lines() == t2.lines(),
        t1.raw_view() == t2.raw_view(),
        t1.widths() == t2.widths(),
        t1.offsets() == t2.offsets(),
{
    let g = t1.grid();
    assert(t1.cols() == grid_cols(g) && t2.cols() == grid_cols(g));
    assert forall|c: int| 0 <= c < t1.widths().len() implies #[trigger] t1.widths()[c]
        == t2.widths()[c] by {
        assert(t1.widths()[c] == col_width(g, c));
        assert(t2.widths()[c] == col_width(g, c));
    }
    assert(t1.widths() =~= t2.widths());
    assert forall|c: int| 0 <= c < t1.offsets().len() implies #[trigger] t1.offsets()[c]
        == t2.offsets()[c] by {
        assert(t1.offsets()[c] == base_offset(g, c));
        assert(t2.offsets()[c] == base_offset(g, c));
    }
    assert(t1.offsets() =~= t2.offsets());
}

/// Single-highlight law: however the selection has moved, the displayed
/// lines hold either no escape character at all, or exactly one pair of
/// markers per affected line, standing exactly at the bounds of the one
/// selected cell — provided no grid cell holds an escape character itself.
pub proof fn lemma_single_highlight(t: Table)
    requires
        t.compiled(),
        forall|r: int, c: int|
            0 <= r < t.rows() && 0 <= c < t.cols() ==> count_char(
                #[trigger] t.grid()[r][c],
                '\x1b',
            ) == 0,
    ensures
        t.selection() is None ==> forall|i: int|
            0 <= i < t.lines().len() ==> count_char(#[trigger] t.lines()[i], '\x1b') == 0,
        t.selection() matches Some((row, col)) ==> forall|i: int|
            0 <= i < t.lines().len() ==> {
                let a = base_offset(t.grid(), col);
                let b = base_offset(t.grid(), col + 1);
                &&& count_char(#[trigger] t.lines()[i], '\x1b') == (if 2 * row <= i <= 2 * row
                    + 2 {
                    2int
                } else {
                    0int
                })
                &&& (2 * row <= i <= 2 * row + 2 ==> t.lines()[i].subrange(a, a + 5)
                    == start_marker() && t.lines()[i].subrange(b + 6, b + 10) == end_marker())
            },
{
    let g = t.grid();
    lemma_raw_lines_no_esc(g);
    match t.selected_grid {
        None => {
        },
        Some((rowu, colu)) => {
            let row = rowu as int;
            let col = colu as int;
            let a = base_offset(g, col);
            let b = base_offset(g, col + 1);
            lemma_base_offset_nonneg(g, col);
            lemma_col_width_nonneg(g, col);
            lemma_base_offset_mono(g, col + 1, t.cols());
            assert forall|i: int| 0 <= i < t.lines().len() implies {
                &&& count_char(#[trigger] t.lines()[i], '\x1b') == (if 2 * row <= i <= 2 * row
                    + 2 {
                    2int
                } else {
                    0int
                })
                &&& (2 * row <= i <= 2 * row + 2 ==> t.lines()[i].subrange(a, a + 5)
                    == start_marker() && t.lines()[i].subrange(b + 6, b + 10) == end_marker())
            } by {
                assert(t.lines()[i] == hl_lines(raw_lines(g), row, a, b)[i]);
                if 2 * row <= i <= 2 * row + 2 {
                    lemma_raw_line_len(g, i);
                    lemma_hl_line_markers(raw_lines(g)[i], a, b);
                }
            }
        },
    }
}

} // verus!
