use selectable_table::ColumnOperations;
use selectable_table::ColumnOrdering;
use selectable_table::RowData;
use selectable_table::SelectableTable;
use selectable_table::SortOrder;
use std::cmp::Ordering;

#[derive(Clone, Copy, Debug, PartialEq, Eq)]
struct Item {
    key: u64,
    score: u64,
}

impl RowData for Item {
    fn clone_row(&self) -> Item {
        *self
    }
}

#[derive(Clone, Copy, Debug, PartialEq, Eq)]
enum Col {
    Id,
    Score,
}

impl ColumnOrdering<Item> for Col {
    // The spec-level members are ghost: nothing ever calls these bodies.
    fn le_spec(self, _row_1: Item, _row_2: Item) -> bool {
        false
    }
    fn le_total(self, _row_1: Item, _row_2: Item) {}
    fn le_transitive(self, _row_1: Item, _row_2: Item, _row_3: Item) {}

    fn order_by(&self, row_1: &Item, row_2: &Item) -> Ordering {
        match self {
            Col::Id => row_1.key.cmp(&row_2.key),
            Col::Score => row_1.score.cmp(&row_2.score),
        }
    }
}

impl ColumnOperations<Item> for Col {
    fn index_spec(self) -> usize {
        0
    }
    fn column_index(&self) -> usize {
        match self {
            Col::Id => 0,
            Col::Score => 1,
        }
    }
    fn column_text(&self, row: &Item) -> String {
        match self {
            Col::Id => format!("id{}", row.key),
            Col::Score => format!("s{}", row.score),
        }
    }
}

fn table_by_score() -> SelectableTable<Item, Col, ()> {
    let mut t = SelectableTable::new(vec![Col::Id, Col::Score]);
    let score_col = t.last_column();
    t.change_sorted_by(&score_col);
    t
}

fn displayed_keys(t: &SelectableTable<Item, Col, ()>) -> Vec<u64> {
    t.get_displayed_rows().iter().map(|r| r.row_data.key).collect()
}

#[test]
fn scenario_sort_by_score_ascending() {
    let mut t = table_by_score();
    t.add_modify_row(Some(Item { key: 0, score: 5 }));
    t.add_modify_row(Some(Item { key: 1, score: 1 }));
    t.add_modify_row(Some(Item { key: 2, score: 3 }));
    t.recreate_rows();
    assert_eq!(displayed_keys(&t), vec![1, 2, 0]);
    let ids: Vec<i64> = t.get_displayed_rows().iter().map(|r| r.id).collect();
    assert_eq!(ids, vec![1, 2, 0]);
}

#[test]
fn descending_reverses_the_comparator() {
    let mut t = table_by_score();
    t.add_modify_row(Some(Item { key: 0, score: 5 }));
    t.add_modify_row(Some(Item { key: 1, score: 1 }));
    t.add_modify_row(Some(Item { key: 2, score: 3 }));
    t.change_sort_order();
    assert!(matches!(t.current_sort_order(), SortOrder::Descending));
    t.recreate_rows();
    assert_eq!(displayed_keys(&t), vec![0, 2, 1]);
}

#[test]
fn sort_is_stable_for_tied_rows() {
    let mut t = table_by_score();
    t.add_modify_row(Some(Item { key: 10, score: 7 }));
    t.add_modify_row(Some(Item { key: 11, score: 7 }));
    t.add_modify_row(Some(Item { key: 12, score: 7 }));
    t.recreate_rows();
    // Tied rows keep store order, and a second rebuild gives the same
    // sequence.
    assert_eq!(displayed_keys(&t), vec![10, 11, 12]);
    t.recreate_rows();
    assert_eq!(displayed_keys(&t), vec![10, 11, 12]);
}

#[test]
fn batcher_reprojects_every_threshold_mutations() {
    let mut t = table_by_score();
    t.set_auto_reload(Some(2_500));
    let mut reloads = 0u32;
    let mut last_shown = 0usize;
    for k in 0..10_000u64 {
        t.add_modify_row(Some(Item { key: k, score: k }));
        let shown = t.total_displayed_rows();
        if shown != last_shown {
            reloads += 1;
            last_shown = shown;
        }
        assert_eq!(shown as u64, (k + 1) / 2_500 * 2_500);
    }
    assert_eq!(reloads, 4);
    assert_eq!(t.total_displayed_rows(), 10_000);
    assert_eq!(t.total_rows(), 10_000);
    // The final display equals one full re-projection over all rows.
    let before: Vec<u64> = displayed_keys(&t);
    t.recreate_rows();
    assert_eq!(displayed_keys(&t), before);
    for (p, r) in t.get_displayed_rows().iter().enumerate() {
        assert_eq!(r.row_data.key, p as u64);
    }
}

#[test]
fn add_modify_row_assigns_increasing_ids() {
    let mut t = table_by_score();
    assert_eq!(t.add_modify_row(Some(Item { key: 0, score: 0 })), Some(0));
    assert_eq!(t.add_modify_row(None), None);
    assert_eq!(t.add_modify_row(Some(Item { key: 1, score: 0 })), Some(1));
    assert_eq!(t.total_rows(), 2);
    assert_eq!(t.total_displayed_rows(), 0);
}

#[test]
fn add_unsorted_row_shows_at_the_bottom_without_sorting() {
    let mut t = table_by_score();
    t.add_modify_row(Some(Item { key: 0, score: 5 }));
    t.recreate_rows();
    let added = t.add_unsorted_row(Item { key: 9, score: 1 });
    assert_eq!(added.id, 1);
    assert_eq!(displayed_keys(&t), vec![0, 9]);
    // A re-projection then sorts it into place.
    t.recreate_rows();
    assert_eq!(displayed_keys(&t), vec![9, 0]);
}

#[test]
fn shown_only_edits_are_transient_store_edits_survive() {
    let mut t = table_by_score();
    t.add_modify_row(Some(Item { key: 0, score: 5 }));
    t.recreate_rows();
    assert!(t.modify_shown_row(0, Item { key: 77, score: 5 }));
    assert_eq!(displayed_keys(&t), vec![77]);
    assert_eq!(t.get_all_rows()[0].row_data.key, 0);
    // The shown-only edit is lost on the next re-projection.
    t.recreate_rows();
    assert_eq!(displayed_keys(&t), vec![0]);
    // A store write survives it.
    assert!(t.modify_row(0, Item { key: 88, score: 5 }));
    t.recreate_rows();
    assert_eq!(displayed_keys(&t), vec![88]);
    // Unknown ids change nothing and report so.
    assert!(!t.modify_row(5, Item { key: 1, score: 1 }));
    assert!(!t.modify_shown_row(5, Item { key: 1, score: 1 }));
}

#[test]
fn display_index_agrees_with_display_positions() {
    let mut t = table_by_score();
    t.add_modify_row(Some(Item { key: 0, score: 30 }));
    t.add_modify_row(Some(Item { key: 1, score: 10 }));
    t.add_modify_row(Some(Item { key: 2, score: 20 }));
    t.recreate_rows();
    assert_eq!(t.total_displayed_rows(), 3);
    // Editing the shown copy of each id lands exactly at the display
    // position where that id sits: the index maps id to position.
    for id in 0..3i64 {
        let mark = 100 + id as u64;
        assert!(t.modify_shown_row(id, Item { key: mark, score: 0 }));
        let pos = t
            .get_displayed_rows()
            .iter()
            .position(|r| r.row_data.key == mark)
            .expect("the edited row is displayed");
        assert_eq!(t.get_displayed_rows()[pos].id, id);
    }
}

#[test]
fn clear_all_rows_resets_ids() {
    let mut t = table_by_score();
    t.add_modify_row(Some(Item { key: 0, score: 0 }));
    t.add_modify_row(Some(Item { key: 1, score: 1 }));
    t.recreate_rows();
    t.clear_all_rows();
    assert_eq!(t.total_rows(), 0);
    assert_eq!(t.total_displayed_rows(), 0);
    assert_eq!(t.add_modify_row(Some(Item { key: 5, score: 5 })), Some(0));
}

#[test]
fn column_helpers_follow_declared_order() {
    let t: SelectableTable<Item, Col, ()> = SelectableTable::new(vec![Col::Id, Col::Score]);
    assert_eq!(t.first_column(), Col::Id);
    assert_eq!(t.last_column(), Col::Score);
    assert_eq!(t.column_to_num(&Col::Score), 1);
    assert_eq!(t.next_column(&Col::Id), Col::Score);
    assert_eq!(t.next_column(&Col::Score), Col::Id);
    assert_eq!(t.previous_column(&Col::Id), Col::Score);
    assert_eq!(t.previous_column(&Col::Score), Col::Id);
}

#[test]
fn changing_sort_column_resets_direction() {
    let mut t = table_by_score();
    t.change_sort_order();
    assert!(matches!(t.current_sort_order(), SortOrder::Descending));
    let id_col = t.first_column();
    t.change_sorted_by(&id_col);
    assert_eq!(t.current_sorted_by(), Col::Id);
    assert!(matches!(t.current_sort_order(), SortOrder::Ascending));
}
