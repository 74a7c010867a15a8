use herbie::migrations::{run_migrations, run_migrations_at};
use herbie::store::Store;

fn versions(store: &Store) -> Vec<i64> {
    let mut v: Vec<i64> = store.migrations.iter().map(|m| m.version).collect();
    v.sort();
    v
}

#[test]
fn records_version_1_as_applied() {
    let mut store = Store::new();
    run_migrations(&mut store);
    assert!(store.migrations.iter().any(|m| m.version == 1));
}

#[test]
fn is_idempotent_running_twice_does_not_error() {
    let mut store = Store::new();
    run_migrations(&mut store);
    run_migrations(&mut store);
    let rows = versions(&store);
    assert_eq!(rows.len(), 3);
    assert_eq!(rows[0], 1);
    assert_eq!(rows[1], 2);
    assert_eq!(rows[2], 3);
}

#[test]
fn creates_the_segments_table_v2_and_records_version_2() {
    let mut store = Store::new();
    run_migrations(&mut store);
    assert!(store.migrations.iter().any(|m| m.version == 2));
}

#[test]
fn creates_the_journal_entries_table_v3_and_records_version_3() {
    let mut store = Store::new();
    run_migrations(&mut store);
    assert!(store.migrations.iter().any(|m| m.version == 3));
}

#[test]
fn v2_migration_is_idempotent_on_rerun() {
    let mut store = Store::new();
    assert_eq!(run_migrations(&mut store), 3);
    assert_eq!(run_migrations(&mut store), 3);
    assert_eq!(store.migrations.len(), 3);
}

#[test]
fn migrations_record_when_they_were_applied() {
    let mut store = Store::new();
    assert_eq!(run_migrations_at(&mut store, "2026-01-01T00:00:00.000Z"), 3);
    assert!(store.migrations.iter().all(|m| m.applied_at == "2026-01-01T00:00:00.000Z"));
    assert_eq!(run_migrations_at(&mut store, "2027-01-01T00:00:00.000Z"), 3);
    assert!(store.migrations.iter().all(|m| m.applied_at == "2026-01-01T00:00:00.000Z"));
}

#[test]
fn segments_table_accepts_a_row_with_open_endat_and_defaults() {
    let mut store = Store::new();
    run_migrations(&mut store);
    let input = herbie::segment::OpenSegmentInput {
        process_name: "app.exe".into(),
        title: "Title".into(),
        kind: None,
        todo_id: None,
        start_at: Some("2026-08-03T10:00:00Z".into()),
    };
    herbie::segment::open_segment_at(&mut store, "seg1", "2026-08-03T10:00:00Z", &input).unwrap();
    let row = &store.segments[0];
    assert!(row.end_at.is_none());
    assert_eq!(row.kind.as_db_str(), "activity");
    assert_eq!(row.process_name, "app.exe");
    assert_eq!(row.note, "");
}

#[test]
fn enables_inserting_a_todo_row_with_all_required_fields() {
    let mut store = Store::new();
    run_migrations(&mut store);
    let input = herbie::todos::TodoInput { title: "t".into(), detail: String::new() };
    herbie::todos::create_todo_at(&mut store, "id1", "2026-01-01T00:00:00Z", &input).unwrap();
    let t = store.todos.iter().find(|t| t.id == "id1").unwrap();
    assert_eq!(t.title, "t");
}

#[test]
fn journal_entries_accepts_a_row_with_optional_null_title() {
    let mut store = Store::new();
    run_migrations(&mut store);
    let input = herbie::journal::JournalInput {
        title: None,
        body: Some("日记正文".into()),
        date: Some("2026-08-04".into()),
    };
    herbie::journal::create_journal_at(&mut store, "j1", "2026-08-04T10:00:00Z", "2026-08-04", true, &input)
        .unwrap();
    let e = &store.journals[0];
    assert!(e.title.is_none());
    assert_eq!(e.body, "日记正文");
    assert_eq!(e.date, "2026-08-04");
}
