use todo_app::store::{DeleteOutcome, MarkOutcome, TodoStore};
use todo_app::task::TodoItem;

fn item(id: usize, description: &str, completed: bool) -> TodoItem {
    TodoItem { id, description: description.to_string(), completed }
}

fn store_of(items: &[(usize, &str, bool)]) -> TodoStore {
    let entries = items.iter().map(|&(id, d, c)| (id, item(id, d, c))).collect();
    TodoStore::from_entries(entries)
}

fn sorted_entries(store: &TodoStore) -> Vec<(usize, TodoItem)> {
    let mut es = store.entries();
    es.sort_by_key(|e| e.0);
    es
}

#[test]
fn add_two_tasks_to_empty_store() {
    let mut store = TodoStore::new();
    store.add_todo("Buy milk".to_string());
    store.add_todo("Walk dog".to_string());
    assert_eq!(store.len(), 2);
    assert_eq!(store.get(1), Some(&item(1, "Buy milk", false)));
    assert_eq!(store.get(2), Some(&item(2, "Walk dog", false)));
}

#[test]
fn adds_number_tasks_by_count() {
    let mut store = TodoStore::new();
    for (n, d) in ["a", "b", "c", "d", "e"].iter().enumerate() {
        assert_eq!(store.len(), n);
        store.add_todo(d.to_string());
        assert_eq!(store.get(n + 1), Some(&item(n + 1, d, false)));
    }
    assert_eq!(store.len(), 5);
}

#[test]
fn mark_done_twice_reports_already_done() {
    let mut store = store_of(&[(1, "Buy milk", false)]);
    assert_eq!(store.mark_done(1), MarkOutcome::Marked);
    assert_eq!(sorted_entries(&store), vec![(1, item(1, "Buy milk", true))]);
    assert_eq!(store.mark_done(1), MarkOutcome::AlreadyDone);
    assert_eq!(sorted_entries(&store), vec![(1, item(1, "Buy milk", true))]);
}

#[test]
fn mark_done_missing_task() {
    let mut store = store_of(&[(1, "Buy milk", false)]);
    assert_eq!(store.mark_done(7), MarkOutcome::NotFound);
    assert_eq!(sorted_entries(&store), vec![(1, item(1, "Buy milk", false))]);
}

#[test]
fn delete_then_add_overwrites_by_count() {
    let mut store = store_of(&[(1, "A", false), (2, "B", false)]);
    assert_eq!(store.delete_todo(1), DeleteOutcome::Deleted);
    assert_eq!(sorted_entries(&store), vec![(2, item(2, "B", false))]);
    store.add_todo("C".to_string());
    assert_eq!(sorted_entries(&store), vec![(2, item(2, "C", false))]);
}

#[test]
fn delete_missing_task_changes_nothing() {
    let mut store = store_of(&[(1, "A", false), (3, "C", true)]);
    let before = sorted_entries(&store);
    assert_eq!(store.delete_todo(2), DeleteOutcome::NotFound);
    assert_eq!(sorted_entries(&store), before);
    assert_eq!(store.len(), 2);
}

#[test]
fn delete_from_empty_store() {
    let mut store = TodoStore::new();
    assert_eq!(store.delete_todo(1), DeleteOutcome::NotFound);
    assert_eq!(store.len(), 0);
}

#[test]
fn entries_round_trip() {
    let store = store_of(&[(1, "A", true), (2, "B", false), (5, "E", false)]);
    let again = TodoStore::from_entries(store.entries());
    assert_eq!(sorted_entries(&again), sorted_entries(&store));
    assert_eq!(
        sorted_entries(&again),
        vec![(1, item(1, "A", true)), (2, item(2, "B", false)), (5, item(5, "E", false))]
    );
}

#[test]
fn from_entries_later_key_wins() {
    let store = TodoStore::from_entries(vec![(4, item(4, "old", false)), (4, item(4, "new", true))]);
    assert_eq!(store.len(), 1);
    assert_eq!(store.get(4), Some(&item(4, "new", true)));
}

#[test]
fn nothing_loaded_gives_empty_store() {
    let store = TodoStore::from_loaded(None);
    assert_eq!(store.len(), 0);
    assert!(store.entries().is_empty());
}

#[test]
fn loaded_entries_fill_store() {
    let store = TodoStore::from_loaded(Some(vec![(1, item(1, "A", false))]));
    assert_eq!(sorted_entries(&store), vec![(1, item(1, "A", false))]);
}

#[test]
fn status_labels() {
    assert_eq!(item(1, "A", true).status_label(), "Done");
    assert_eq!(item(1, "A", false).status_label(), "Not Done");
}

#[test]
fn duplicate_copies_fields() {
    let t = item(3, "Walk dog", true);
    assert_eq!(t.duplicate(), t);
    assert_eq!(TodoItem::new(2, "x".to_string()), item(2, "x", false));
}
