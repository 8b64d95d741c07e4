use rust_menu::helpers::{Body, Cell, Column, GridError, HeaderCol, HeaderRow, Table};

const GREEN: &str = "\x1b[32m";
const RESET: &str = "\x1b[0m";

#[test]
fn cell_new_keeps_fields() {
    let c = Cell::new("hi", true, false);
    assert_eq!(c.value, "hi");
    assert!(c.has_info);
    assert!(!c.is_focused);
}

#[test]
fn column_widens_to_largest_cell() {
    let mut col = Column::new(0);
    col.add_cell(Cell::new("a", false, false));
    assert_eq!(col.max_width, 1);
    col.add_cell(Cell::new("abcd", false, false));
    assert_eq!(col.max_width, 4);
    col.add_cell(Cell::new("xy", false, false));
    assert_eq!(col.max_width, 4);
    assert_eq!(col.cells.len(), 3);
}

#[test]
fn header_row_records_label_widths() {
    let h = HeaderRow::new(vec!["one", "tw", "t"]);
    assert_eq!(h.row_widths, vec![3, 2, 1]);
    assert_eq!(h.row_values, vec!["one", "tw", "t"]);
}

#[test]
fn header_col_takes_widest_label() {
    let h = HeaderCol::new(vec!["a", "widest", "mid"]);
    assert_eq!(h.width, 6);
}

#[test]
fn body_from_vec_builds_columns() {
    let b = Body::from_vec(vec![vec!["a", "b"], vec!["c", "d"]]).unwrap();
    assert_eq!(b.rows(), 2);
    assert_eq!(b.cols(), 2);
    assert_eq!(b.get_value(0, 1), Some("b"));
    assert_eq!(b.get_value(1, 0), Some("c"));
    assert_eq!(b.get_value(2, 0), None);
    assert_eq!(b.get_value(0, 2), None);
    assert_eq!(b.selected_cell(), None);
}

#[test]
fn from_vec_width_is_the_longest_cell_alone() {
    // A column of two one-character cells is one character wide, however
    // many cells it holds.
    let b = Body::from_vec(vec![vec!["a", "b"]]).unwrap();
    assert_eq!(b.body[0].max_width, 1);
    let wide = Body::from_vec(vec![vec!["a", "bbb"]]).unwrap();
    assert_eq!(wide.body[0].max_width, 3);
}

#[test]
fn compile_pads_by_longest_cell_not_cell_count() {
    let mut t = Table::from_vec(vec![vec!["a", "b"]], None, None).unwrap();
    t.compile();
    let corner = format!("{RESET}+{RESET}");
    let fill = format!("{RESET}---{RESET}");
    let sep = format!("{RESET}|{RESET}");
    let border = format!("{corner}{fill}{corner}\n");
    let row_a = format!("{sep}{RESET} a {RESET}{sep}\n");
    let row_b = format!("{sep}{RESET} b {RESET}{sep}\n");
    assert_eq!(
        t.raw_strings,
        vec![border.clone(), row_a, border.clone(), row_b, border]
    );
}

#[test]
fn body_from_vec_rejects_ragged_lists() {
    let r = Body::from_vec(vec![vec!["a", "b"], vec!["c"]]);
    assert!(matches!(r, Err(GridError::ColumnMismatch)));
}

#[test]
fn add_column_rejects_mismatched_length() {
    let mut b = Body::new();
    let mut col = Column::new(0);
    col.add_cell(Cell::new("a", false, false));
    col.add_cell(Cell::new("b", false, false));
    assert!(b.add_column(col).is_ok());
    let mut short = Column::new(0);
    short.add_cell(Cell::new("c", false, false));
    assert!(matches!(b.add_column(short), Err(GridError::ColumnMismatch)));
    assert_eq!(b.rows(), 2);
    assert_eq!(b.cols(), 1);
}

#[test]
fn update_focus_marks_exactly_the_selected_cell() {
    let mut b = Body::from_vec(vec![vec!["a", "b"], vec!["c", "d"]]).unwrap();
    b.change_focused_cell((0, 1));
    b.update_focus();
    for c in 0..2 {
        for r in 0..2 {
            assert_eq!(b.get_cell(c, r).is_focused, c == 0 && r == 1);
        }
    }
    b.change_focused_cell((1, 0));
    b.update_focus();
    for c in 0..2 {
        for r in 0..2 {
            assert_eq!(b.get_cell(c, r).is_focused, c == 1 && r == 0);
        }
    }
}

#[test]
fn focused_cell_gives_the_selected_cell_mutably() {
    let mut b = Body::from_vec(vec![vec!["a"], vec!["b"]]).unwrap();
    b.change_focused_cell((1, 0));
    {
        let cell = b.focused_cell();
        assert_eq!(cell.value, "b");
        cell.has_info = true;
    }
    assert!(b.get_cell(1, 0).has_info);
    assert!(!b.get_cell(0, 0).has_info);
}

#[test]
fn table_from_vec_keeps_headers_as_given() {
    let hr = HeaderRow::new(vec!["x", "y"]);
    let hc = HeaderCol::new(vec!["r"]);
    let t = Table::from_vec(vec![vec!["a"], vec!["b"]], Some(hr), Some(hc)).unwrap();
    assert!(t.header_row.is_some());
    assert!(t.header_col.is_some());
    assert_eq!(t.body.cols(), 2);
}

#[test]
fn add_header_row_widens_columns() {
    let mut t = Table::from_vec(vec![vec!["a"], vec!["b"]], None, None).unwrap();
    let r = t.add_header_row(HeaderRow::new(vec!["long", "x"]));
    assert!(r.is_ok());
    assert_eq!(t.body.body[0].max_width, 4);
    assert_eq!(t.body.body[1].max_width, 1);
    let h = t.header_row.as_ref().unwrap();
    assert_eq!(h.row_widths, vec![4, 1]);
}

#[test]
fn add_header_row_rejects_wrong_column_count() {
    let mut t = Table::from_vec(vec![vec!["a"], vec!["b"]], None, None).unwrap();
    let r = t.add_header_row(HeaderRow::new(vec!["only"]));
    assert!(matches!(r, Err(GridError::HeaderMismatch)));
    assert!(t.header_row.is_none());
}

#[test]
fn compile_renders_unfocused_single_cell() {
    let mut t = Table::from_vec(vec![vec!["a"]], None, None).unwrap();
    t.compile();
    let corner = format!("{RESET}+{RESET}");
    let fill = format!("{RESET}---{RESET}");
    let sep = format!("{RESET}|{RESET}");
    let val = format!("{RESET} a {RESET}");
    let border = format!("{corner}{fill}{corner}\n");
    let content = format!("{sep}{val}{sep}\n");
    assert_eq!(t.raw_strings, vec![border.clone(), content, border]);
}

#[test]
fn compile_colours_the_focused_cell_borders() {
    let mut t = Table::from_vec(vec![vec!["a"], vec!["b"]], None, None).unwrap();
    t.body_mut().change_focused_cell((0, 0));
    t.compile();
    let gc = format!("{GREEN}+{RESET}");
    let rc = format!("{RESET}+{RESET}");
    let gf = format!("{GREEN}---{RESET}");
    let rf = format!("{RESET}---{RESET}");
    let gs = format!("{GREEN}|{RESET}");
    let rs = format!("{RESET}|{RESET}");
    let border = format!("{gc}{gf}{gc}{rf}{rc}\n");
    let content = format!("{gs}{GREEN} a {RESET}{gs}{RESET} b {RESET}{rs}\n");
    assert_eq!(t.raw_strings.len(), 3);
    assert_eq!(t.raw_strings[0], border);
    assert_eq!(t.raw_strings[1], content);
    assert_eq!(t.raw_strings[2], border);
}

#[test]
fn compile_without_selection_leaves_focus_flags_alone() {
    let mut t = Table::from_vec(vec![vec!["a"]], None, None).unwrap();
    t.compile();
    assert!(!t.body.get_cell(0, 0).is_focused);
}

#[test]
fn body_mut_reaches_the_body() {
    let mut t = Table::from_vec(vec![vec!["a"]], None, None).unwrap();
    t.body_mut().change_focused_cell((0, 0));
    assert_eq!(t.body.selected_cell(), Some((0, 0)));
}
