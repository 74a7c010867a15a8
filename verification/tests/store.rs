use herbie::store::{LabelRow, Store};
use herbie::todos::{create_todo_at, TodoInput};

fn input(title: &str) -> TodoInput {
    TodoInput { title: title.into(), detail: String::new() }
}

#[test]
fn an_empty_store_is_well_formed() {
    assert!(Store::new().is_well_formed());
}

#[test]
fn operations_keep_the_store_well_formed() {
    let mut store = Store::new();
    create_todo_at(&mut store, "t1", "2026-01-01T00:00:00Z", &input("a #x")).unwrap();
    create_todo_at(&mut store, "t2", "2026-01-01T00:00:00Z", &TodoInput { title: "b".into(), detail: "#x #y".into() })
        .unwrap();
    herbie::migrations::run_migrations(&mut store);
    herbie::settings::set(&mut store, "k", "v");
    assert!(store.is_well_formed());
}

#[test]
fn broken_keys_and_references_are_detected() {
    let mut dup = Store::new();
    create_todo_at(&mut dup, "t1", "2026-01-01T00:00:00Z", &input("a")).unwrap();
    let copy = dup.todos[0].clone();
    dup.todos.push(copy);
    assert!(!dup.is_well_formed());

    let mut orphan = Store::new();
    orphan.todo_labels.push(LabelRow { owner: "ghost".into(), label: "x".into() });
    assert!(!orphan.is_well_formed());

    let mut twice = Store::new();
    create_todo_at(&mut twice, "t1", "2026-01-01T00:00:00Z", &input("a")).unwrap();
    twice.todo_labels.push(LabelRow { owner: "t1".into(), label: "x".into() });
    twice.todo_labels.push(LabelRow { owner: "t1".into(), label: "x".into() });
    assert!(!twice.is_well_formed());

    let mut versions = Store::new();
    herbie::migrations::run_migrations(&mut versions);
    let again = herbie::store::AppliedMigration { version: 1, applied_at: "x".into() };
    versions.migrations.push(again);
    assert!(!versions.is_well_formed());
}
