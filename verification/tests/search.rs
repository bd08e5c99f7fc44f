use selectable_table::ColumnOperations;
use selectable_table::ColumnOrdering;
use selectable_table::RowData;
use selectable_table::SelectableTable;
use std::cmp::Ordering;

#[derive(Clone, Debug, PartialEq, Eq)]
struct Entry {
    key: u64,
    name: &'static str,
}

impl RowData for Entry {
    fn clone_row(&self) -> Entry {
        self.clone()
    }
}

#[derive(Clone, Copy, Debug, PartialEq, Eq)]
enum Col {
    Key,
    Name,
}

impl ColumnOrdering<Entry> for Col {
    // The spec-level members are ghost: nothing ever calls these bodies.
    fn le_spec(self, _row_1: Entry, _row_2: Entry) -> bool {
        false
    }
    fn le_total(self, _row_1: Entry, _row_2: Entry) {}
    fn le_transitive(self, _row_1: Entry, _row_2: Entry, _row_3: Entry) {}

    fn order_by(&self, row_1: &Entry, row_2: &Entry) -> Ordering {
        match self {
            Col::Key => row_1.key.cmp(&row_2.key),
            Col::Name => row_1.name.cmp(row_2.name),
        }
    }
}

impl ColumnOperations<Entry> for Col {
    fn index_spec(self) -> usize {
        0
    }
    fn column_index(&self) -> usize {
        match self {
            Col::Key => 0,
            Col::Name => 1,
        }
    }
    fn column_text(&self, row: &Entry) -> String {
        match self {
            Col::Key => format!("{}", row.key),
            Col::Name => row.name.to_string(),
        }
    }
}

fn fruit_table() -> SelectableTable<Entry, Col, ()> {
    let mut t = SelectableTable::new(vec![Col::Key, Col::Name]);
    t.add_modify_row(Some(Entry { key: 0, name: "apple pie" }));
    t.add_modify_row(Some(Entry { key: 1, name: "banana split" }));
    t.add_modify_row(Some(Entry { key: 2, name: "apple juice" }));
    t.add_modify_row(Some(Entry { key: 3, name: "cherry cake" }));
    t.recreate_rows();
    t
}

fn displayed_names(t: &SelectableTable<Entry, Col, ()>) -> Vec<&'static str> {
    t.get_displayed_rows().iter().map(|r| r.row_data.name).collect()
}

#[test]
fn search_keeps_only_matching_rows_in_sort_order() {
    let mut t = fruit_table();
    t.search_and_show(&vec![Col::Name], "apple", None, None);
    assert_eq!(displayed_names(&t), vec!["apple pie", "apple juice"]);
    // A plain re-projection restores the unfiltered view.
    t.recreate_rows();
    assert_eq!(
        displayed_names(&t),
        vec!["apple pie", "banana split", "apple juice", "cherry cake"]
    );
}

#[test]
fn search_with_empty_column_list_changes_nothing() {
    let mut t = fruit_table();
    let before = displayed_names(&t);
    t.search_and_show(&vec![], "x", None, None);
    assert_eq!(displayed_names(&t), before);
}

#[test]
fn search_with_empty_query_changes_nothing() {
    let mut t = fruit_table();
    let before = displayed_names(&t);
    t.search_and_show(&vec![Col::Name], "", None, None);
    assert_eq!(displayed_names(&t), before);
}

#[test]
fn search_with_zero_limit_changes_nothing() {
    let mut t = fruit_table();
    let before = displayed_names(&t);
    t.search_and_show(&vec![Col::Name], "x", Some(0), None);
    assert_eq!(displayed_names(&t), before);
}

#[test]
fn search_limit_caps_at_the_first_matches_in_store_order() {
    let mut t = fruit_table();
    t.search_and_show(&vec![Col::Name], "apple", Some(1), None);
    assert_eq!(displayed_names(&t), vec!["apple pie"]);
}

#[test]
fn search_over_several_columns_concatenates_their_texts() {
    let mut t = fruit_table();
    t.search_and_show(&vec![Col::Key, Col::Name], "3", None, None);
    assert_eq!(displayed_names(&t), vec!["cherry cake"]);
}

#[test]
fn search_drops_the_selection() {
    let mut t = fruit_table();
    t.select_single_row_cell(0, &Col::Name);
    t.search_and_show(&vec![Col::Name], "apple", None, None);
    assert!(t.get_displayed_rows().iter().all(|r| !r.column_selected(0) && !r.column_selected(1)));
}

#[test]
fn search_with_no_match_shows_nothing() {
    let mut t = fruit_table();
    t.search_and_show(&vec![Col::Name], "zzzq", None, None);
    assert_eq!(t.total_displayed_rows(), 0);
    assert_eq!(t.total_rows(), 4);
}
