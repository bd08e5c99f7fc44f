use selectable_table::AutoReload;
use selectable_table::ColumnOrdering;
use selectable_table::SelectableRow;
use selectable_table::SortOrder;
use std::cmp::Ordering;

#[derive(Clone, Copy, Debug, PartialEq, Eq)]
struct Item {
    id: u64,
    score: u64,
}

#[derive(Clone, Copy, Debug, PartialEq, Eq)]
enum Col {
    Id,
    Score,
}

impl ColumnOrdering<Item> for Col {
    // The spec-level members are ghost: nothing ever calls these bodies.
    fn le_spec(self, _row_1: Item, _row_2: Item) -> bool {
        false
    }
    fn le_total(self, _row_1: Item, _row_2: Item) {}
    fn le_transitive(self, _row_1: Item, _row_2: Item, _row_3: Item) {}

    fn order_by(&self, row_1: &Item, row_2: &Item) -> Ordering {
        match self {
            Col::Id => row_1.id.cmp(&row_2.id),
            Col::Score => row_1.score.cmp(&row_2.score),
        }
    }
}

#[test]
fn order_by_compares_by_the_named_column() {
    let a = Item { id: 1, score: 9 };
    let b = Item { id: 2, score: 3 };
    assert_eq!(Col::Id.order_by(&a, &b), Ordering::Less);
    assert_eq!(Col::Score.order_by(&a, &b), Ordering::Greater);
    assert_eq!(Col::Id.order_by(&a, &a), Ordering::Equal);
}

#[test]
fn sort_order_default_is_ascending() {
    assert_eq!(SortOrder::default(), SortOrder::Ascending);
}

#[test]
fn batcher_triggers_on_the_threshold_and_starts_over() {
    let mut b = AutoReload::new();
    assert!(!b.increment_count());
    b.set_threshold(Some(3));
    assert!(!b.increment_count());
    assert!(b.increment_count());
    assert!(!b.increment_count());
    assert!(!b.increment_count());
    assert!(b.increment_count());
}

#[test]
fn batcher_without_threshold_never_triggers() {
    let mut b = AutoReload::new();
    for _ in 0..100 {
        assert!(!b.increment_count());
    }
}

#[test]
fn column_selected_reads_the_flag() {
    let row = SelectableRow {
        row_data: Item { id: 0, score: 0 },
        id: 0,
        selected_columns: vec![false, true],
    };
    assert!(!row.column_selected(0));
    assert!(row.column_selected(1));
    assert!(!row.column_selected(2));
}
