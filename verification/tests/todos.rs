use herbie::labels_store::labels_for_todo;
use herbie::store::Store;
use herbie::todos::{
    create_todo, create_todo_at, list_todo_labels, list_todos, now_iso, soft_delete_todo,
    toggle_todo, toggle_todo_at, update_todo, update_todo_at, TodoFilter, TodoInput, TodoPatch,
};

fn make() -> Store {
    Store::new()
}

fn wait() {
    let start = now_iso();
    while now_iso() == start {}
}

fn input(title: &str, detail: &str) -> TodoInput {
    TodoInput { title: title.to_string(), detail: detail.to_string() }
}

fn label_counts(store: &Store) -> Vec<(String, i64)> {
    list_todo_labels(store).into_iter().map(|c| (c.label, c.count)).collect()
}

#[test]
fn creates_a_todo_with_trimmed_title() {
    let mut store = make();
    let t = create_todo(&mut store, &input("  Buy milk  ", "")).unwrap();
    assert_eq!(t.title, "Buy milk");
    assert!(t.completed_at.is_none());
    assert!(t.deleted_at.is_none());
    assert!(uuid::Uuid::parse_str(&t.id).is_ok(), "id is a uuid v4 string: {}", t.id);
}

#[test]
fn lists_todos_by_created_at_descending_among_pending() {
    let mut store = make();
    let a = create_todo(&mut store, &input("a", "")).unwrap();
    wait();
    let b = create_todo(&mut store, &input("b", "")).unwrap();
    let list = list_todos(&store, None);
    assert_eq!(list.iter().map(|t| t.id.clone()).collect::<Vec<_>>(), vec![b.id, a.id]);
}

#[test]
fn places_done_items_after_pending() {
    let mut store = make();
    let a = create_todo(&mut store, &input("a", "")).unwrap();
    wait();
    let b = create_todo(&mut store, &input("b", "")).unwrap();
    toggle_todo(&mut store, &b.id, true).unwrap();
    let list = list_todos(&store, None);
    assert_eq!(list[0].id, a.id);
    assert_eq!(list[1].id, b.id);
}

#[test]
fn parses_labels_on_create_and_exposes_counts_via_list_todo_labels() {
    let mut store = make();
    create_todo(&mut store, &input("t1", "do #work and #meta")).unwrap();
    create_todo(&mut store, &input("t2", "also #work")).unwrap();
    let counts = label_counts(&store);
    let work = counts.iter().find(|(l, _)| l == "work").map(|(_, c)| *c);
    let meta = counts.iter().find(|(l, _)| l == "meta").map(|(_, c)| *c);
    assert_eq!(work, Some(2));
    assert_eq!(meta, Some(1));
}

#[test]
fn re_parses_labels_on_update() {
    let mut store = make();
    let t = create_todo(&mut store, &input("t", "#work")).unwrap();
    update_todo(&mut store, &t.id, &TodoPatch { title: None, detail: Some("#home #work".into()) })
        .unwrap();
    let mut labels: Vec<String> = label_counts(&store).into_iter().map(|(l, _)| l).collect();
    labels.sort();
    assert_eq!(labels, vec!["home".to_string(), "work".to_string()]);
}

#[test]
fn removes_a_label_when_detail_no_longer_has_it() {
    let mut store = make();
    let t = create_todo(&mut store, &input("t", "#work #home")).unwrap();
    update_todo(&mut store, &t.id, &TodoPatch { title: None, detail: Some("no tags here".into()) })
        .unwrap();
    assert!(list_todo_labels(&store).is_empty());
}

#[test]
fn skips_hash_inside_urls_when_parsing_labels() {
    let mut store = make();
    create_todo(&mut store, &input("t", "see https://x.io/p#sec and #real")).unwrap();
    let labels: Vec<String> = list_todo_labels(&store).into_iter().map(|c| c.label).collect();
    assert_eq!(labels, vec!["real".to_string()]);
}

#[test]
fn toggle_true_sets_completed_at_false_clears_it() {
    let mut store = make();
    let t = create_todo(&mut store, &input("t", "")).unwrap();
    let done = toggle_todo(&mut store, &t.id, true).unwrap();
    assert!(done.completed_at.is_some());
    let undone = toggle_todo(&mut store, &t.id, false).unwrap();
    assert!(undone.completed_at.is_none());
}

#[test]
fn soft_delete_removes_from_list_and_excludes_from_label_counts() {
    let mut store = make();
    let t = create_todo(&mut store, &input("t", "#work")).unwrap();
    soft_delete_todo(&mut store, &t.id);
    assert!(list_todos(&store, None).is_empty());
    assert!(list_todo_labels(&store).is_empty());
}

#[test]
fn filters_by_labels_using_or_union() {
    let mut store = make();
    let t1 = create_todo(&mut store, &input("t1", "#work")).unwrap();
    create_todo(&mut store, &input("t2", "#home")).unwrap();
    let t3 = create_todo(&mut store, &input("t3", "#work #home")).unwrap();
    let filter = TodoFilter { labels: Some(vec!["work".into()]) };
    let mut got: Vec<String> = list_todos(&store, Some(&filter)).iter().map(|t| t.id.clone()).collect();
    got.sort();
    let mut want = vec![t1.id, t3.id];
    want.sort();
    assert_eq!(got, want);
}

#[test]
fn filter_with_multiple_labels_is_union_not_intersection() {
    let mut store = make();
    let t1 = create_todo(&mut store, &input("t1", "#work")).unwrap();
    let t2 = create_todo(&mut store, &input("t2", "#home")).unwrap();
    create_todo(&mut store, &input("t3", "#meta")).unwrap();
    let filter = TodoFilter { labels: Some(vec!["work".into(), "home".into()]) };
    let mut got: Vec<String> = list_todos(&store, Some(&filter)).iter().map(|t| t.id.clone()).collect();
    got.sort();
    let mut want = vec![t1.id, t2.id];
    want.sort();
    assert_eq!(got, want);
}

#[test]
fn todos_update_throws_on_unknown_id() {
    let mut store = make();
    let res = update_todo(&mut store, "does-not-exist", &TodoPatch { title: None, detail: Some("x".into()) });
    assert!(res.is_err());
}

#[test]
fn omits_completed_at_column_ordering_done_sorted_by_completed_at_desc() {
    let mut store = make();
    let a = create_todo(&mut store, &input("a", "")).unwrap();
    wait();
    let b = create_todo(&mut store, &input("b", "")).unwrap();
    toggle_todo(&mut store, &a.id, true).unwrap();
    wait();
    toggle_todo(&mut store, &b.id, true).unwrap();
    let done: Vec<String> = list_todos(&store, None)
        .into_iter()
        .filter(|t| t.completed_at.is_some())
        .map(|t| t.id)
        .collect();
    assert_eq!(done, vec![b.id, a.id]);
}

#[test]
fn unknown_id_message_names_the_id() {
    let mut store = make();
    let err = update_todo(&mut store, "nope", &TodoPatch { title: None, detail: None }).unwrap_err();
    assert_eq!(err, "todo not found: nope");
}

#[test]
fn create_at_uses_given_id_and_time_and_refuses_a_taken_id() {
    let mut store = make();
    let t = create_todo_at(&mut store, "id-1", "2026-01-01T00:00:00.000Z", &input(" x ", "#a")).unwrap();
    assert_eq!(t.id, "id-1");
    assert_eq!(t.title, "x");
    assert_eq!(t.created_at, "2026-01-01T00:00:00.000Z");
    assert_eq!(t.updated_at, "2026-01-01T00:00:00.000Z");
    assert!(create_todo_at(&mut store, "id-1", "2026-01-02T00:00:00.000Z", &input("y", "")).is_err());
    assert_eq!(store.todos.len(), 1);
}

#[test]
fn update_at_keeps_unpatched_fields_and_does_not_trim_detail() {
    let mut store = make();
    create_todo_at(&mut store, "id-1", "2026-01-01T00:00:00.000Z", &input("x", " #a ")).unwrap();
    let t = update_todo_at(
        &mut store,
        "id-1",
        &TodoPatch { title: Some("  new  ".into()), detail: None },
        "2026-01-03T00:00:00.000Z",
    )
    .unwrap();
    assert_eq!(t.title, "new");
    assert_eq!(t.detail, " #a ");
    assert_eq!(t.created_at, "2026-01-01T00:00:00.000Z");
    assert_eq!(t.updated_at, "2026-01-03T00:00:00.000Z");
    assert_eq!(labels_for_todo(&store, "id-1"), vec!["a".to_string()]);
}

#[test]
fn toggle_at_records_completion_time_and_unknown_id_is_refused() {
    let mut store = make();
    create_todo_at(&mut store, "id-1", "2026-01-01T00:00:00.000Z", &input("x", "")).unwrap();
    let t = toggle_todo_at(&mut store, "id-1", true, "2026-01-05T00:00:00.000Z").unwrap();
    assert_eq!(t.completed_at.as_deref(), Some("2026-01-05T00:00:00.000Z"));
    assert!(toggle_todo_at(&mut store, "other", true, "2026-01-05T00:00:00.000Z").is_err());
}

#[test]
fn label_counts_are_ordered_by_count_then_label() {
    let mut store = make();
    create_todo(&mut store, &input("a", "#b #c")).unwrap();
    create_todo(&mut store, &input("b", "#c #a")).unwrap();
    create_todo(&mut store, &input("c", "#z")).unwrap();
    assert_eq!(
        label_counts(&store),
        vec![("c".to_string(), 2), ("a".to_string(), 1), ("b".to_string(), 1), ("z".to_string(), 1)]
    );
}

#[test]
fn labels_follow_the_detail_after_every_edit() {
    let mut store = make();
    let t = create_todo(&mut store, &input("t", "#one #two")).unwrap();
    assert_eq!(labels_for_todo(&store, &t.id), vec!["one".to_string(), "two".to_string()]);
    update_todo(&mut store, &t.id, &TodoPatch { title: None, detail: Some("#three".into()) }).unwrap();
    assert_eq!(labels_for_todo(&store, &t.id), vec!["three".to_string()]);
    toggle_todo(&mut store, &t.id, true).unwrap();
    soft_delete_todo(&mut store, &t.id);
    assert_eq!(labels_for_todo(&store, &t.id), vec!["three".to_string()]);
}
