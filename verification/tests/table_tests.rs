use rust_menu::table::{SubMenu, Table, TableError};

const GREEN: &str = "\x1b[32m";
const RESET: &str = "\x1b[0m";

fn grid3() -> Vec<Vec<&'static str>> {
    vec![
        vec!["1", "2", "3"],
        vec!["4", "5", "6"],
        vec!["7", "8", "9"],
    ]
}

fn compiled3() -> Table {
    let mut t = Table::new(grid3()).unwrap();
    t.compile();
    t
}

#[test]
fn compile_layout_3x3() {
    let t = compiled3();
    let border = "+---+---+---+";
    let lines = t.displayed_lines();
    assert_eq!(lines.len(), 7);
    assert_eq!(lines[0], border);
    assert_eq!(lines[1], "| 1 | 2 | 3 |");
    assert_eq!(lines[2], border);
    assert_eq!(lines[3], "| 4 | 5 | 6 |");
    assert_eq!(lines[4], border);
    assert_eq!(lines[5], "| 7 | 8 | 9 |");
    assert_eq!(lines[6], border);
    assert_eq!(t.height(), 3);
    assert_eq!(t.width(), 3);
    assert_eq!(t.offset_table(), &vec![0, 4, 8, 12]);
    assert_eq!(t.width_table(), &vec![1, 1, 1]);
}

#[test]
fn rejects_non_rectangular_grid() {
    let r = Table::new(vec![vec!["a", "b"], vec!["c"]]);
    assert!(matches!(r, Err(TableError::NonRectangular)));
}

#[test]
fn empty_grid_compiles_to_single_border() {
    let mut t = Table::new(Vec::new()).unwrap();
    t.compile();
    assert_eq!(t.displayed_lines(), &vec!["+".to_string()]);
    assert_eq!(t.height(), 0);
    assert_eq!(t.width(), 0);
}

#[test]
fn no_selection_before_first_move() {
    let t = compiled3();
    assert_eq!(t.get_value(), None);
}

#[test]
fn highlight_first_cell() {
    let mut t = compiled3();
    t.move_cell(0, 0);
    let lines = t.displayed_lines();
    let hb = format!("{GREEN}+---+{RESET}---+---+");
    assert_eq!(lines[0], hb);
    assert_eq!(lines[1], format!("{GREEN}| 1 |{RESET} 2 | 3 |"));
    assert_eq!(lines[2], hb);
    assert_eq!(lines[3], "| 4 | 5 | 6 |");
    assert_eq!(t.get_value(), Some("1"));
    assert_eq!(t.offset_table(), &vec![0, 9, 17, 21]);
}

#[test]
fn sequential_moves_select_center_cell() {
    // Three successive moves leave only the cell holding "5" highlighted.
    let mut t = compiled3();
    t.move_cell(0, 0);
    t.move_cell(0, 1);
    t.move_cell(1, 1);
    let hb = format!("+---{GREEN}+---+{RESET}---+");
    let lines = t.displayed_lines();
    assert_eq!(lines[0], "+---+---+---+");
    assert_eq!(lines[1], "| 1 | 2 | 3 |");
    assert_eq!(lines[2], hb);
    assert_eq!(lines[3], format!("| 4 {GREEN}| 5 |{RESET} 6 |"));
    assert_eq!(lines[4], hb);
    assert_eq!(lines[5], "| 7 | 8 | 9 |");
    assert_eq!(lines[6], "+---+---+---+");
    assert_eq!(t.get_value(), Some("5"));
}

#[test]
fn unhighlight_restores_lines_and_offsets_exactly() {
    // Moving away and back must leave the same bytes as moving there
    // directly from a fresh compile.
    let mut walked = compiled3();
    walked.move_cell(0, 0);
    walked.move_cell(2, 2);
    walked.move_cell(1, 1);
    let mut direct = compiled3();
    direct.move_cell(1, 1);
    assert_eq!(walked.displayed_lines(), direct.displayed_lines());
    assert_eq!(walked.offset_table(), direct.offset_table());
}

#[test]
fn offsets_stay_monotonic_after_moves() {
    let mut t = compiled3();
    let moves = [(0, 0), (2, 2), (1, 0), (0, 2), (1, 1)];
    for (r, c) in moves {
        t.move_cell(r, c);
        let offs = t.offset_table();
        let widths = t.width_table();
        for i in 0..widths.len() {
            assert!(offs[i + 1] - offs[i] >= widths[i] + 3);
        }
    }
}

#[test]
fn exactly_one_highlighted_region() {
    let mut t = compiled3();
    for line in t.displayed_lines() {
        assert_eq!(line.matches('\x1b').count(), 0);
    }
    t.move_cell(0, 1);
    t.move_cell(2, 0);
    let lines = t.displayed_lines();
    for (i, line) in lines.iter().enumerate() {
        let esc = line.matches('\x1b').count();
        if (4..=6).contains(&i) {
            assert_eq!(esc, 2);
            assert_eq!(line.matches(GREEN).count(), 1);
            assert_eq!(line.matches(RESET).count(), 1);
        } else {
            assert_eq!(esc, 0);
        }
    }
}

#[test]
fn boundary_cell_1x1() {
    let mut t = Table::new(vec![vec!["x"]]).unwrap();
    t.compile();
    t.move_cell(0, 0);
    assert_eq!(t.get_value(), Some("x"));
    let lines = t.displayed_lines();
    assert_eq!(lines.len(), 3);
    assert_eq!(lines[0], format!("{GREEN}+---+{RESET}"));
    assert_eq!(lines[1], format!("{GREEN}| x |{RESET}"));
    assert_eq!(lines[2], format!("{GREEN}+---+{RESET}"));
}

#[test]
fn boundary_cell_last_column_of_1xn() {
    let mut t = Table::new(vec![vec!["a", "b", "c"]]).unwrap();
    t.compile();
    t.move_cell(0, 2);
    assert_eq!(t.get_value(), Some("c"));
    let lines = t.displayed_lines();
    assert_eq!(lines.len(), 3);
    assert_eq!(lines[0], format!("+---+---{GREEN}+---+{RESET}"));
    assert_eq!(lines[1], format!("| a | b {GREEN}| c |{RESET}"));
}

#[test]
fn boundary_cell_last_row_of_nx1() {
    let mut t = Table::new(vec![vec!["a"], vec!["b"], vec!["c"]]).unwrap();
    t.compile();
    t.move_cell(2, 0);
    assert_eq!(t.get_value(), Some("c"));
    let lines = t.displayed_lines();
    assert_eq!(lines.len(), 7);
    assert_eq!(lines[3], "| b |");
    assert_eq!(lines[4], format!("{GREEN}+---+{RESET}"));
    assert_eq!(lines[5], format!("{GREEN}| c |{RESET}"));
    assert_eq!(lines[6], format!("{GREEN}+---+{RESET}"));
}

#[test]
fn compile_is_deterministic() {
    let mut t1 = Table::new(grid3()).unwrap();
    let mut t2 = Table::new(grid3()).unwrap();
    t1.compile();
    t2.compile();
    assert_eq!(t1.displayed_lines(), t2.displayed_lines());
    assert_eq!(t1.offset_table(), t2.offset_table());
    // Recompiling resets the highlight and yields the same lines again.
    t1.move_cell(1, 2);
    t1.compile();
    assert_eq!(t1.displayed_lines(), t2.displayed_lines());
    assert_eq!(t1.offset_table(), t2.offset_table());
}

#[test]
fn mixed_width_columns() {
    let mut t = Table::new(vec![vec!["a", "bb"], vec!["ccc", "d"]]).unwrap();
    t.compile();
    let lines = t.displayed_lines();
    assert_eq!(lines[0], "+-----+----+");
    assert_eq!(lines[1], "|  a  | bb |");
    assert_eq!(lines[3], "| ccc | d  |");
    assert_eq!(t.width_table(), &vec![3, 2]);
    assert_eq!(t.offset_table(), &vec![0, 6, 11]);
}

#[test]
fn submenu_allocation_is_fixed() {
    let t = compiled3();
    let sm = SubMenu::new(vec!["open", "quit"]);
    assert_eq!(t.allocate_for_submenu(sm), ((3, 3), (3, 3)));
}
