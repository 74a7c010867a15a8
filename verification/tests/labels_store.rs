use herbie::journal::{create_journal_at, JournalInput};
use herbie::labels_store::{labels_for_journal, labels_for_todo, update_journal_labels, update_todo_labels};
use herbie::store::{Store, StoreError};
use herbie::todos::{create_todo_at, TodoInput};

fn make() -> Store {
    Store::new()
}

fn insert_todo(store: &mut Store, id: &str) {
    create_todo_at(store, id, "2026-01-01T00:00:00Z", &TodoInput { title: "t".into(), detail: String::new() })
        .unwrap();
}

fn insert_journal(store: &mut Store, id: &str) {
    create_journal_at(
        store,
        id,
        "2026-01-01T00:00:00Z",
        "2026-08-04",
        true,
        &JournalInput { title: None, body: Some("body".into()), date: Some("2026-08-04".into()) },
    )
    .unwrap();
}

fn strings(v: &[&str]) -> Vec<String> {
    v.iter().map(|s| s.to_string()).collect()
}

#[test]
fn inserts_labels_for_a_todo() {
    let mut store = make();
    insert_todo(&mut store, "t1");
    update_todo_labels(&mut store, "t1", &strings(&["work", "home"])).unwrap();
    assert_eq!(labels_for_todo(&store, "t1"), strings(&["home", "work"]));
}

#[test]
fn replaces_labels_on_reparse_delete_then_insert() {
    let mut store = make();
    insert_todo(&mut store, "t1");
    update_todo_labels(&mut store, "t1", &strings(&["work", "home"])).unwrap();
    update_todo_labels(&mut store, "t1", &strings(&["work", "meta"])).unwrap();
    assert_eq!(labels_for_todo(&store, "t1"), strings(&["meta", "work"]));
}

#[test]
fn clears_all_labels_when_given_empty_set() {
    let mut store = make();
    insert_todo(&mut store, "t1");
    update_todo_labels(&mut store, "t1", &strings(&["work"])).unwrap();
    update_todo_labels(&mut store, "t1", &[]).unwrap();
    assert!(labels_for_todo(&store, "t1").is_empty());
}

#[test]
fn ignores_duplicate_labels_within_one_parse() {
    let mut store = make();
    insert_todo(&mut store, "t1");
    update_todo_labels(&mut store, "t1", &strings(&["work", "work", "home"])).unwrap();
    assert_eq!(labels_for_todo(&store, "t1"), strings(&["home", "work"]));
}

#[test]
fn inserts_labels_for_a_journal_entry() {
    let mut store = make();
    insert_journal(&mut store, "j1");
    update_journal_labels(&mut store, "j1", &strings(&["work", "meeting"])).unwrap();
    assert_eq!(labels_for_journal(&store, "j1"), strings(&["meeting", "work"]));
}

#[test]
fn replaces_journal_labels_on_reparse_delete_then_insert() {
    let mut store = make();
    insert_journal(&mut store, "j1");
    update_journal_labels(&mut store, "j1", &strings(&["work", "home"])).unwrap();
    update_journal_labels(&mut store, "j1", &strings(&["work", "meta"])).unwrap();
    assert_eq!(labels_for_journal(&store, "j1"), strings(&["meta", "work"]));
}

#[test]
fn shares_the_label_namespace_with_todos_same_label_string() {
    let mut store = make();
    insert_todo(&mut store, "t1");
    insert_journal(&mut store, "j1");
    update_todo_labels(&mut store, "t1", &strings(&["work"])).unwrap();
    update_journal_labels(&mut store, "j1", &strings(&["work"])).unwrap();
    assert_eq!(labels_for_todo(&store, "t1"), strings(&["work"]));
    assert_eq!(labels_for_journal(&store, "j1"), strings(&["work"]));
}

#[test]
fn labels_for_a_missing_owner_are_refused() {
    let mut store = make();
    assert_eq!(update_todo_labels(&mut store, "ghost", &strings(&["a"])), Err(StoreError::MissingParent));
    assert_eq!(update_journal_labels(&mut store, "ghost", &strings(&["a"])), Err(StoreError::MissingParent));
    assert!(store.todo_labels.is_empty());
    assert_eq!(update_todo_labels(&mut store, "ghost", &[]), Ok(()));
}

#[test]
fn relabelling_one_owner_keeps_the_others() {
    let mut store = make();
    insert_todo(&mut store, "t1");
    insert_todo(&mut store, "t2");
    update_todo_labels(&mut store, "t1", &strings(&["a"])).unwrap();
    update_todo_labels(&mut store, "t2", &strings(&["b"])).unwrap();
    update_todo_labels(&mut store, "t1", &strings(&["c"])).unwrap();
    assert_eq!(labels_for_todo(&store, "t1"), strings(&["c"]));
    assert_eq!(labels_for_todo(&store, "t2"), strings(&["b"]));
}
