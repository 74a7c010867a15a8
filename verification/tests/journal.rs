use herbie::journal::{
    create_journal, create_journal_at, list_journals, patch_title, soft_delete_journal,
    update_journal, update_journal_at, JournalEntry, JournalInput, JournalPatch,
};
use herbie::labels_store::labels_for_journal;
use herbie::store::Store;
use herbie::todos::now_iso;

fn make() -> Store {
    Store::new()
}

fn wait() {
    let start = now_iso();
    while now_iso() == start {}
}

fn input(body: &str) -> JournalInput {
    JournalInput { title: None, body: Some(body.to_string()), date: None }
}

fn ids(list: Vec<JournalEntry>) -> Vec<String> {
    list.into_iter().map(|e| e.id).collect()
}

fn patch(title: Option<Option<String>>, body: Option<&str>, date: Option<&str>) -> JournalPatch {
    JournalPatch { title, body: body.map(|s| s.to_string()), date: date.map(|s| s.to_string()) }
}

#[test]
fn creates_a_journal_entry_with_required_body_and_defaults_date_to_today() {
    let mut store = make();
    let e = create_journal(&mut store, &input("First note #work")).unwrap();
    assert!(uuid::Uuid::parse_str(&e.id).is_ok(), "id is a uuid v4 string: {}", e.id);
    assert!(e.title.is_none());
    assert_eq!(e.body, "First note #work");
    let re = regex::Regex::new(r"^\d{4}-\d{2}-\d{2}$").unwrap();
    assert!(re.is_match(&e.date), "date should be YYYY-MM-DD: {}", e.date);
    assert!(e.deleted_at.is_none());
}

#[test]
fn stores_a_trimmed_title_when_provided_null_when_blank() {
    let mut store = make();
    let a = create_journal(
        &mut store,
        &JournalInput { title: Some("  Meeting  ".into()), body: Some("body".into()), date: None },
    )
    .unwrap();
    assert_eq!(a.title, Some("Meeting".to_string()));
    let b = create_journal(
        &mut store,
        &JournalInput { title: Some("   ".into()), body: Some("body".into()), date: None },
    )
    .unwrap();
    assert!(b.title.is_none());
}

#[test]
fn rejects_an_empty_body_on_create() {
    let mut store = make();
    let res = create_journal(&mut store, &JournalInput { title: None, body: Some("   ".into()), date: None });
    assert!(res.is_err());
    let res2 = create_journal(&mut store, &JournalInput { title: None, body: Some(String::new()), date: None });
    assert!(res2.is_err());
}

#[test]
fn rejects_an_invalid_date_on_create() {
    let mut store = make();
    let res = create_journal(
        &mut store,
        &JournalInput { title: None, body: Some("x".into()), date: Some("not-a-date".into()) },
    );
    assert!(res.is_err());
}

#[test]
fn lists_entries_for_a_day_ordered_by_created_at_ascending() {
    let mut store = make();
    let a = create_journal(&mut store, &input("a")).unwrap();
    wait();
    let b = create_journal(&mut store, &input("b")).unwrap();
    let list = list_journals(&store, &a.date);
    assert_eq!(ids(list), vec![a.id, b.id]);
}

#[test]
fn only_lists_entries_of_the_requested_day() {
    let mut store = make();
    let today = create_journal(&mut store, &input("today")).unwrap();
    let other = create_journal(
        &mut store,
        &JournalInput { title: None, body: Some("past".into()), date: Some("2020-01-01".into()) },
    )
    .unwrap();
    assert_eq!(ids(list_journals(&store, &today.date)), vec![today.id]);
    assert_eq!(ids(list_journals(&store, "2020-01-01")), vec![other.id]);
}

#[test]
fn re_parses_labels_from_body_on_create_and_update() {
    let mut store = make();
    let e = create_journal(&mut store, &input("do #work and #meeting")).unwrap();
    assert_eq!(labels_for_journal(&store, &e.id), vec!["meeting".to_string(), "work".to_string()]);
    update_journal(&mut store, &e.id, &patch(None, Some("now only #work"), None)).unwrap();
    assert_eq!(labels_for_journal(&store, &e.id), vec!["work".to_string()]);
}

#[test]
fn update_edits_title_body_date_and_bumps_updated_at() {
    let mut store = make();
    let e = create_journal(&mut store, &input("orig")).unwrap();
    wait();
    let updated = update_journal(
        &mut store,
        &e.id,
        &patch(Some(Some("T".into())), Some("new #tag"), Some("2020-06-06")),
    )
    .unwrap();
    assert_eq!(updated.title, Some("T".to_string()));
    assert_eq!(updated.body, "new #tag");
    assert_eq!(updated.date, "2020-06-06");
    assert_ne!(updated.updated_at, e.updated_at);
    assert_eq!(labels_for_journal(&store, &e.id), vec!["tag".to_string()]);
}

#[test]
fn update_rejects_empty_body_when_body_is_provided() {
    let mut store = make();
    let e = create_journal(&mut store, &input("orig")).unwrap();
    let res = update_journal(&mut store, &e.id, &patch(None, Some("   "), None));
    assert!(res.is_err());
}

#[test]
fn update_clears_title_when_set_to_null() {
    let mut store = make();
    let e = create_journal(
        &mut store,
        &JournalInput { title: Some("T".into()), body: Some("orig".into()), date: None },
    )
    .unwrap();
    let updated = update_journal(&mut store, &e.id, &patch(Some(None), None, None)).unwrap();
    assert!(updated.title.is_none());
}

#[test]
fn journal_update_throws_on_unknown_id() {
    let mut store = make();
    let res = update_journal(&mut store, "nope", &patch(None, Some("x"), None));
    assert!(res.is_err());
}

#[test]
fn soft_delete_hides_entry_from_list() {
    let mut store = make();
    let e = create_journal(&mut store, &input("gone")).unwrap();
    soft_delete_journal(&mut store, &e.id);
    assert!(list_journals(&store, &e.date).is_empty());
}

#[test]
fn reschedules_entry_via_date_patch_to_a_different_day() {
    let mut store = make();
    let e = create_journal(
        &mut store,
        &JournalInput { title: None, body: Some("x".into()), date: Some("2020-01-01".into()) },
    )
    .unwrap();
    update_journal(&mut store, &e.id, &patch(None, None, Some("2020-02-02"))).unwrap();
    assert!(list_journals(&store, "2020-01-01").is_empty());
    assert_eq!(ids(list_journals(&store, "2020-02-02")), vec![e.id]);
}

/// The title of a patch as it arrives: absent, `null`, or a string.
fn title_field(json: &str) -> Option<Option<String>> {
    let v: serde_json::Value = serde_json::from_str(json).unwrap();
    match v.get("title") {
        None => None,
        Some(serde_json::Value::Null) => patch_title(None),
        Some(t) => patch_title(Some(t.as_str().unwrap().to_string())),
    }
}

#[test]
fn journal_patch_title_deserializes_three_states() {
    assert!(title_field(r#"{"body":"x"}"#).is_none());
    assert_eq!(title_field(r#"{"title":null,"body":"x"}"#), Some(None));
    assert_eq!(title_field(r#"{"title":"   "}"#), Some(None));
    assert_eq!(title_field(r#"{"title":"  T  "}"#), Some(Some("T".to_string())));
}

#[test]
fn error_messages_name_the_problem() {
    let mut store = make();
    let empty = create_journal(&mut store, &JournalInput { title: None, body: None, date: None }).unwrap_err();
    assert_eq!(empty, "journal body must not be empty");
    let bad = create_journal(
        &mut store,
        &JournalInput { title: None, body: Some("x".into()), date: Some(" bad ".into()) },
    )
    .unwrap_err();
    assert_eq!(bad, "invalid date: bad");
    let missing = update_journal(&mut store, "nope", &patch(None, None, None)).unwrap_err();
    assert_eq!(missing, "journal not found: nope");
}

#[test]
fn create_at_and_update_at_use_the_given_times_and_day_check() {
    let mut store = make();
    let e = create_journal_at(&mut store, "j1", "2026-08-04T10:00:00.000Z", "2026-08-04", true, &input("b #t"))
        .unwrap();
    assert_eq!(e.date, "2026-08-04");
    assert_eq!(e.created_at, "2026-08-04T10:00:00.000Z");
    let refused = create_journal_at(&mut store, "j2", "2026-08-04T10:00:00.000Z", "2026-08-04", false, &input("b"));
    assert_eq!(refused.unwrap_err(), "invalid date: 2026-08-04");
    let dup = create_journal_at(&mut store, "j1", "2026-08-04T10:00:00.000Z", "2026-08-04", true, &input("b"));
    assert!(dup.is_err());
    let u = update_journal_at(&mut store, "j1", &patch(None, None, Some("2026-08-05")), "2026-08-05T00:00:00.000Z", true)
        .unwrap();
    assert_eq!(u.date, "2026-08-05");
    assert_eq!(u.updated_at, "2026-08-05T00:00:00.000Z");
    assert_eq!(u.created_at, "2026-08-04T10:00:00.000Z");
    assert_eq!(store.journals.len(), 1);
}

#[test]
fn refuses_a_month_outside_the_year_on_create() {
    let mut store = make();
    let res = create_journal(
        &mut store,
        &JournalInput { title: None, body: Some("x".into()), date: Some(" 2026-13-01 ".into()) },
    );
    assert_eq!(res.unwrap_err(), "invalid date: 2026-13-01");
    assert!(store.journals.is_empty());
}
