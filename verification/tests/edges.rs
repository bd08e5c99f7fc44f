use selectable_table::ColumnOperations;
use selectable_table::ColumnOrdering;
use selectable_table::RowData;
use selectable_table::SelectableTable;
use std::cmp::Ordering;

#[derive(Clone, Copy, Debug, PartialEq, Eq)]
struct Item {
    key: u64,
}

impl RowData for Item {
    fn clone_row(&self) -> Item {
        *self
    }
}

#[derive(Clone, Copy, Debug, PartialEq, Eq)]
enum Col {
    Only,
}

impl ColumnOrdering<Item> for Col {
    // The spec-level members are ghost: nothing ever calls these bodies.
    fn le_spec(self, _row_1: Item, _row_2: Item) -> bool {
        false
    }
    fn le_total(self, _row_1: Item, _row_2: Item) {}
    fn le_transitive(self, _row_1: Item, _row_2: Item, _row_3: Item) {}

    fn order_by(&self, row_1: &Item, row_2: &Item) -> Ordering {
        row_1.key.cmp(&row_2.key)
    }
}

impl ColumnOperations<Item> for Col {
    fn index_spec(self) -> usize {
        0
    }
    fn column_index(&self) -> usize {
        0
    }
    fn column_text(&self, row: &Item) -> String {
        format!("{}", row.key)
    }
}

fn empty_table() -> SelectableTable<Item, Col, ()> {
    SelectableTable::new(vec![Col::Only])
}

#[test]
fn empty_table_operations_are_harmless() {
    let mut t = empty_table();
    t.recreate_rows();
    t.recreate_rows_no_unselect();
    t.select_all();
    t.unselect_all();
    assert_eq!(t.total_rows(), 0);
    assert_eq!(t.total_displayed_rows(), 0);
    assert_eq!(t.selected_cells_text(), "");
}

#[test]
fn selection_on_stale_ids_changes_nothing() {
    let mut t = empty_table();
    t.add_modify_row(Some(Item { key: 1 }));
    t.recreate_rows();
    t.select_single_row_cell(42, &Col::Only);
    t.mark_row_as_selected(-1, None);
    assert!(!t.get_displayed_rows()[0].column_selected(0));
}

#[test]
fn drag_without_a_live_drag_changes_nothing() {
    let mut t = empty_table();
    t.add_modify_row(Some(Item { key: 1 }));
    t.add_modify_row(Some(Item { key: 2 }));
    t.recreate_rows();
    t.select_dragged_row_cell(1, &Col::Only, false);
    assert!(t.get_displayed_rows().iter().all(|r| !r.column_selected(0)));
}

#[test]
fn drag_to_a_vanished_row_changes_nothing() {
    let mut t = empty_table();
    t.add_modify_row(Some(Item { key: 1 }));
    t.recreate_rows();
    t.start_drag(0, &Col::Only, false);
    // The pointer reports a row that is not displayed.
    t.select_dragged_row_cell(7, &Col::Only, false);
    assert!(!t.get_displayed_rows()[0].column_selected(0));
    t.end_drag();
}

#[test]
fn single_column_wraps_onto_itself() {
    let t = empty_table();
    assert_eq!(t.first_column(), Col::Only);
    assert_eq!(t.last_column(), Col::Only);
    assert_eq!(t.next_column(&Col::Only), Col::Only);
    assert_eq!(t.previous_column(&Col::Only), Col::Only);
}

#[test]
fn search_limit_above_match_count_keeps_every_match() {
    let mut t = empty_table();
    for k in 0..3u64 {
        t.add_modify_row(Some(Item { key: k }));
    }
    t.recreate_rows();
    t.search_and_show(&vec![Col::Only], "1", Some(10), None);
    assert_eq!(t.total_displayed_rows(), 1);
    assert_eq!(t.get_displayed_rows()[0].row_data.key, 1);
}

#[test]
fn builders_keep_their_flags() {
    let t = empty_table().serial_column().horizontal_scroll().no_ctrl_a_capture().auto_reload(5);
    assert!(t.has_serial_column());
    assert!(t.has_horizontal_scroll());
    assert!(!t.has_ctrl_a_capture());
    let t2 = empty_table();
    assert!(!t2.has_serial_column());
    assert!(!t2.has_horizontal_scroll());
    assert!(t2.has_ctrl_a_capture());
}

#[test]
fn config_is_carried_through() {
    let mut t: SelectableTable<Item, Col, u32> =
        SelectableTable::new(vec![Col::Only]).config(7);
    assert_eq!(t.config, 7);
    t.set_config(9);
    assert_eq!(t.config, 9);
}
