use selectable_table::ColumnOperations;
use selectable_table::ColumnOrdering;
use selectable_table::RowData;
use selectable_table::SelectableTable;
use std::cmp::Ordering;

#[derive(Clone, Copy, Debug, PartialEq, Eq)]
struct Item {
    key: u64,
}

impl RowData for Item {
    fn clone_row(&self) -> Item {
        *self
    }
}

#[derive(Clone, Copy, Debug, PartialEq, Eq)]
enum Col {
    A,
    C,
}

impl ColumnOrdering<Item> for Col {
    // The spec-level members are ghost: nothing ever calls these bodies.
    fn le_spec(self, _row_1: Item, _row_2: Item) -> bool {
        false
    }
    fn le_total(self, _row_1: Item, _row_2: Item) {}
    fn le_transitive(self, _row_1: Item, _row_2: Item, _row_3: Item) {}

    fn order_by(&self, row_1: &Item, row_2: &Item) -> Ordering {
        row_1.key.cmp(&row_2.key)
    }
}

impl ColumnOperations<Item> for Col {
    fn index_spec(self) -> usize {
        0
    }
    fn column_index(&self) -> usize {
        match self {
            Col::A => 0,
            Col::C => 1,
        }
    }
    fn column_text(&self, row: &Item) -> String {
        match self {
            Col::A => format!("a{}", row.key),
            Col::C => format!("c{}", row.key),
        }
    }
}

/// Ten rows, keys 0..10, displayed in key order so that display position
/// equals key.
fn ten_rows() -> SelectableTable<Item, Col, ()> {
    let mut t = SelectableTable::new(vec![Col::A, Col::C]);
    for k in 0..10u64 {
        t.add_modify_row(Some(Item { key: k }));
    }
    t.recreate_rows();
    t
}

#[test]
fn copy_is_row_major_in_display_order() {
    let mut t = ten_rows();
    // Selected in scrambled order: rows 5, 9, 2, columns C before A.
    for id in [5i64, 9, 2] {
        t.select_single_row_cell(id, &Col::C);
        t.select_single_row_cell(id, &Col::A);
    }
    // The copy is grouped by display order 2, 5, 9 and column order A, C —
    // not by the order the cells were selected in.
    assert_eq!(t.selected_cells_text(), "a2\tc2\na5\tc5\na9\tc9");
}

#[test]
fn copy_of_a_single_cell_has_no_delimiters() {
    let mut t = ten_rows();
    t.select_single_row_cell(7, &Col::C);
    assert_eq!(t.selected_cells_text(), "c7");
}

#[test]
fn copy_of_nothing_is_empty() {
    let t = ten_rows();
    assert_eq!(t.selected_cells_text(), "");
}

#[test]
fn copy_separates_cells_with_tabs_and_rows_with_line_breaks() {
    let mut t = ten_rows();
    t.mark_row_as_selected(0, None);
    t.select_single_row_cell(1, &Col::A);
    assert_eq!(t.selected_cells_text(), "a0\tc0\na1");
}

#[test]
fn copy_follows_the_current_display_order() {
    let mut t = ten_rows();
    t.change_sort_order();
    t.recreate_rows();
    for id in [3i64, 8] {
        t.select_single_row_cell(id, &Col::A);
    }
    // Descending by key: row 8 is displayed above row 3.
    assert_eq!(t.selected_cells_text(), "a8\na3");
}
