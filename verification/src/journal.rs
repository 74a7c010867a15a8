//! Journal entries: a body (required), an optional title, and the local day
//! they belong to.  The body's `#tags` are the entry's labels, in the same
//! label space as the to-dos'.

use vstd::prelude::*;

use crate::labels::{labels_of, parse_labels};
use crate::labels_store::{
    label_set, labels_of_owner, lemma_read_after_relabel, relabelled, texts, update_journal_labels,
};
use crate::order::{
    lemma_text_le_total, lemma_text_le_transitive, sort_rows, sorted_rows, text_le, text_le_exec,
    RowOrder,
};
use crate::store::{
    find_journal, is_uuid_v4_text, journal_ids, lemma_journal_ids_push, lemma_journal_ids_update,
    new_uuid, Store,
};
use crate::text::{blank, clone_opt_string, concat, is_blank, text_eq, trim, trim_text};
use crate::time::{
    calendar_refused, day_bounds, in_range, is_utc_offset, iso_utc_millis, local_date_at, parse_ymd,
};

verus! {

/// One journal entry.  `date` is a local day `YYYY-MM-DD`; times are ISO strings.
#[derive(Debug)]
pub struct JournalEntry {
    pub id: String,
    pub title: Option<String>,
    pub body: String,
    pub date: String,
    pub created_at: String,
    pub updated_at: String,
    pub deleted_at: Option<String>,
}

/// The value of a journal entry.
pub struct JournalView {
    pub id: Seq<char>,
    pub title: Option<Seq<char>>,
    pub body: Seq<char>,
    pub date: Seq<char>,
    pub created_at: Seq<char>,
    pub updated_at: Seq<char>,
    pub deleted_at: Option<Seq<char>>,
}

impl View for JournalEntry {
    type V = JournalView;

    open spec fn view(&self) -> JournalView {
        JournalView {
            id: self.id@,
            title: self.title.deep_view(),
            body: self.body@,
            date: self.date@,
            created_at: self.created_at@,
            updated_at: self.updated_at@,
            deleted_at: self.deleted_at.deep_view(),
        }
    }
}

impl Clone for JournalEntry {
    fn clone(&self) -> (r: JournalEntry)
        ensures
            r == *self,
    {
        JournalEntry {
            id: self.id.clone(),
            title: clone_opt_string(&self.title),
            body: self.body.clone(),
            date: self.date.clone(),
            created_at: self.created_at.clone(),
            updated_at: self.updated_at.clone(),
            deleted_at: clone_opt_string(&self.deleted_at),
        }
    }
}

/// What a new entry is made of; a missing body counts as empty and a
/// missing or blank date as today.
pub struct JournalInput {
    pub title: Option<String>,
    pub body: Option<String>,
    pub date: Option<String>,
}

/// What an edit changes.  `title`: `None` keeps it, `Some(None)` clears it,
/// `Some(Some(t))` sets it to `t`.
pub struct JournalPatch {
    pub title: Option<Option<String>>,
    pub body: Option<String>,
    pub date: Option<String>,
}


/// The order of a day's entries: by creation time, oldest first.
pub struct JournalOrder;

impl RowOrder<JournalEntry> for JournalOrder {
    open spec fn before(a: JournalEntry, b: JournalEntry) -> bool {
        text_le(a.created_at@, b.created_at@)
    }

    proof fn lemma_total(a: JournalEntry, b: JournalEntry) {
        lemma_text_le_total(a.created_at@, b.created_at@);
    }

    proof fn lemma_transitive(a: JournalEntry, b: JournalEntry, c: JournalEntry) {
        lemma_text_le_transitive(a.created_at@, b.created_at@, c.created_at@);
    }

    fn le(a: &JournalEntry, b: &JournalEntry) -> (r: bool) {
        text_le_exec(a.created_at.as_str(), b.created_at.as_str())
    }
}

/// An entry that the list of `day` shows: of that day, not deleted.
pub open spec fn listed_on(day: Seq<char>, e: JournalEntry) -> bool {
    e.date@ == day && e.deleted_at.deep_view() is None
}

/// The entries of the local day `day` that are not deleted, oldest first.
pub fn list_journals(store: &Store, day: &str) -> (r: Vec<JournalEntry>)
    ensures
        sorted_rows::<JournalEntry, JournalOrder>(r@),
        r@.to_multiset() =~= store.journals@.filter(|e: JournalEntry| listed_on(day@, e)).to_multiset(),
{
    let ghost pred = |e: JournalEntry| listed_on(day@, e);
    let mut picked: Vec<JournalEntry> = Vec::new();
    let mut i: usize = 0;
    while i < store.journals.len()
        invariant
            i <= store.journals@.len(),
            pred == (|e: JournalEntry| listed_on(day@, e)),
            picked@ == store.journals@.subrange(0, i as int).filter(pred),
        decreases store.journals@.len() - i,
    {
        let e = &store.journals[i];
        proof {
            assert(store.journals@.subrange(0, i + 1) =~= store.journals@.subrange(0, i as int).push(
                store.journals@[i as int],
            ));
            store.journals@.subrange(0, i as int).lemma_filter_push(store.journals@[i as int], pred);
        }
        if text_eq(e.date.as_str(), day) && e.deleted_at.is_none() {
            picked.push(e.clone());
        }
        i = i + 1;
    }
    assert(store.journals@.subrange(0, i as int) =~= store.journals@);
    sort_rows::<JournalEntry, JournalOrder>(picked)
}

/// The body of a new entry: as written, empty when missing.
pub open spec fn body_of(input: &JournalInput) -> Seq<char> {
    match input.body {
        Some(b) => b@,
        None => Seq::empty(),
    }
}

/// The day of a new entry: the date given, trimmed, or `today` when it is
/// missing or blank.
pub open spec fn journal_date_of(input: &JournalInput, today: Seq<char>) -> Seq<char> {
    match input.date {
        Some(d) => if is_blank(d@) {
            today
        } else {
            trim(d@)
        },
        None => today,
    }
}

/// The title of a new entry: trimmed, and none when missing or blank.
pub open spec fn journal_title_of(title: Option<String>) -> Option<Seq<char>> {
    match title {
        Some(t) => if trim(t@).len() == 0 {
            None
        } else {
            Some(trim(t@))
        },
        None => None,
    }
}

/// What an empty body is answered.
pub open spec fn empty_body_message() -> Seq<char> {
    "journal body must not be empty"@
}

/// What a day that is not a date is answered.
pub open spec fn invalid_date_message(date: Seq<char>) -> Seq<char> {
    "invalid date: "@ + date
}

/// What an edit of an entry that does not exist is answered.
pub open spec fn journal_not_found(id: Seq<char>) -> Seq<char> {
    "journal not found: "@ + id
}

/// What a second entry with a taken id is answered.
pub open spec fn duplicate_journal_message() -> Seq<char> {
    "UNIQUE constraint failed: journal_entries.id"@
}

/// A new entry made `now`.
pub open spec fn new_journal(
    id: Seq<char>,
    now: Seq<char>,
    date: Seq<char>,
    input: &JournalInput,
) -> JournalView {
    JournalView {
        id: id,
        title: journal_title_of(input.title),
        body: body_of(input),
        date: date,
        created_at: now,
        updated_at: now,
        deleted_at: None,
    }
}

/// The tables other than the journal entries and their labels are as they were.
pub open spec fn journal_others_kept(before: Store, after: Store) -> bool {
    &&& after.todos == before.todos
    &&& after.todo_labels == before.todo_labels
    &&& after.segments == before.segments
    &&& after.settings == before.settings
    &&& after.migrations == before.migrations
}

/// Every entry carries exactly the labels written in its body.
pub open spec fn labels_follow_bodies(store: Store) -> bool {
    forall|i: int|
        0 <= i < store.journals@.len() ==> labels_of_owner(
            store.journal_labels@,
            (#[trigger] store.journals@[i]).id@,
        ) == labels_of(store.journals@[i].body@).to_set()
}

/// Adding an entry with a new id keeps the tables well formed.
proof fn lemma_wf_journal_added(before: Store, after: Store, e: JournalEntry)
    requires
        before.wf(),
        !journal_ids(before.journals@).contains(e.id@),
        after.journals@ == before.journals@.push(e),
        after.journal_labels == before.journal_labels,
        journal_others_kept(before, after),
    ensures
        after.wf(),
        journal_ids(after.journals@) == journal_ids(before.journals@).insert(e.id@),
{
    lemma_journal_ids_push(before.journals@, e);
    let n = before.journals@.len() as int;
    assert forall|i: int, j: int| 0 <= i < j < after.journals@.len() implies #[trigger] after.journals@[i].id@
        != #[trigger] after.journals@[j].id@ by {
        assert(after.journals@[i] == before.journals@[i]);
        if j == n {
            assert(journal_ids(before.journals@).contains(before.journals@[i].id@));
        } else {
            assert(after.journals@[j] == before.journals@[j]);
        }
    }
}

/// Replacing an entry by one with the same id keeps the tables well formed.
proof fn lemma_wf_journal_replaced(before: Store, after: Store, k: int, e: JournalEntry)
    requires
        before.wf(),
        0 <= k < before.journals@.len(),
        e.id@ == before.journals@[k].id@,
        after.journals@ == before.journals@.update(k, e),
        after.journal_labels == before.journal_labels,
        journal_others_kept(before, after),
    ensures
        after.wf(),
        journal_ids(after.journals@) == journal_ids(before.journals@),
{
    lemma_journal_ids_update(before.journals@, k, e);
    assert forall|i: int, j: int| 0 <= i < j < after.journals@.len() implies #[trigger] after.journals@[i].id@
        != #[trigger] after.journals@[j].id@ by {
        assert(after.journals@[i].id@ == before.journals@[i].id@);
        assert(after.journals@[j].id@ == before.journals@[j].id@);
    }
}

/// Relabelling one entry with the labels of its new body keeps every
/// entry's labels following its body.
proof fn lemma_follow_after_relabel(before: Store, after: Store, k: int)
    requires
        before.wf(),
        after.wf(),
        labels_follow_bodies(before),
        0 <= k < after.journals@.len(),
        after.journals@.len() == before.journals@.len() || (k == before.journals@.len()
            && after.journals@.len() == k + 1),
        forall|i: int|
            0 <= i < after.journals@.len() && i != k ==> #[trigger] after.journals@[i]
                == before.journals@[i],
        label_set(after.journal_labels@) == relabelled(
            before.journal_labels@,
            after.journals@[k].id@,
            labels_of(after.journals@[k].body@),
        ),
    ensures
        labels_follow_bodies(after),
{
    let id = after.journals@[k].id@;
    assert forall|i: int| 0 <= i < after.journals@.len() implies labels_of_owner(
        after.journal_labels@,
        (#[trigger] after.journals@[i]).id@,
    ) == labels_of(after.journals@[i].body@).to_set() by {
        if i == k {
            lemma_read_after_relabel(
                before.journal_labels@,
                after.journal_labels@,
                id,
                labels_of(after.journals@[k].body@),
                id + seq!['x'],
            );
        } else {
            assert(after.journals@[i].id@ != id);
            lemma_read_after_relabel(
                before.journal_labels@,
                after.journal_labels@,
                id,
                labels_of(after.journals@[k].body@),
                after.journals@[i].id@,
            );
            assert(before.journals@[i] == after.journals@[i]);
            assert(labels_of_owner(before.journal_labels@, before.journals@[i].id@) == labels_of(
                before.journals@[i].body@,
            ).to_set());
        }
    }
}

/// The day a new entry belongs to (see `journal_date_of`).
pub fn journal_date(input: &JournalInput, today: &str) -> (d: String)
    ensures
        d@ == journal_date_of(input, today@),
{
    match &input.date {
        Some(d) => if blank(d.as_str()) {
            today.to_owned()
        } else {
            trim_text(d.as_str())
        },
        None => today.to_owned(),
    }
}

fn journal_title(title: &Option<String>) -> (r: Option<String>)
    ensures
        r.deep_view() == journal_title_of(*title),
{
    match title {
        Some(t) => {
            let x = trim_text(t.as_str());
            if x.as_str().unicode_len() == 0 {
                None
            } else {
                Some(x)
            }
        },
        None => None,
    }
}

/// Adds an entry with id `id` made `now`, for `today` when no day is given,
/// and gives it the labels written in its body.  `date_ok` says whether the
/// entry's day is a day of the calendar (`day_bounds` finds it).  Refused,
/// with nothing changed: an empty or blank body; a day that is not a date;
/// an id that is taken.
pub fn create_journal_at(
    store: &mut Store,
    id: &str,
    now: &str,
    today: &str,
    date_ok: bool,
    input: &JournalInput,
) -> (r: Result<JournalEntry, String>)
    requires
        old(store).wf(),
    ensures
        final(store).wf(),
        r is Err ==> *final(store) == *old(store),
        is_blank(body_of(input)) ==> (r matches Err(e) && e@ == empty_body_message()),
        !is_blank(body_of(input)) && !date_ok ==> (r matches Err(e) && e@ == invalid_date_message(
            journal_date_of(input, today@),
        )),
        !is_blank(body_of(input)) && date_ok && journal_ids(old(store).journals@).contains(id@)
            ==> (r matches Err(e) && e@ == duplicate_journal_message()),
        r matches Ok(e) ==> {
            &&& !is_blank(body_of(input)) && date_ok && !journal_ids(old(store).journals@).contains(id@)
            &&& e@ == new_journal(id@, now@, journal_date_of(input, today@), input)
            &&& final(store).journals@ == old(store).journals@.push(e)
            &&& label_set(final(store).journal_labels@) == relabelled(
                old(store).journal_labels@,
                id@,
                labels_of(body_of(input)),
            )
            &&& journal_others_kept(*old(store), *final(store))
        },
        !is_blank(body_of(input)) && date_ok && !journal_ids(old(store).journals@).contains(id@)
            ==> r is Ok,
        labels_follow_bodies(*old(store)) ==> labels_follow_bodies(*final(store)),
{
    let body = match &input.body {
        Some(b) => b.clone(),
        None => String::new(),
    };
    if blank(body.as_str()) {
        return Err("journal body must not be empty".to_owned());
    }
    let date = journal_date(input, today);
    if !date_ok {
        return Err(concat("invalid date: ", date.as_str()));
    }
    if find_journal(&store.journals, id).is_some() {
        return Err("UNIQUE constraint failed: journal_entries.id".to_owned());
    }
    let ghost before = *store;
    let e = JournalEntry {
        id: id.to_owned(),
        title: journal_title(&input.title),
        body,
        date,
        created_at: now.to_owned(),
        updated_at: now.to_owned(),
        deleted_at: None,
    };
    store.journals.push(e.clone());
    proof {
        lemma_wf_journal_added(before, *store, e);
    }
    let labels = parse_labels(e.body.as_str());
    let res = update_journal_labels(store, id, labels.as_slice());
    assert(res is Ok);
    assert(texts(labels@) == labels_of(e.body@));
    proof {
        if labels_follow_bodies(before) {
            assert forall|i: int|
                0 <= i < store.journals@.len() && i != before.journals@.len() implies #[trigger] store.journals@[i]
                == before.journals@[i] by {}
            lemma_follow_after_relabel(before, *store, before.journals@.len() as int);
        }
    }
    Ok(e)
}

/// The entry `e` was made at the instant `ms`, on a clock set `off` from
/// UTC by the machine's time zone: its creation time names that instant, and
/// when no day was given its day is the local date of that instant.
pub open spec fn made_on_local_day(e: JournalView, input: &JournalInput, ms: int, off: int) -> bool {
    &&& in_range(ms)
    &&& is_utc_offset(off)
    &&& e.created_at == iso_utc_millis(ms)
    &&& (input.date is None || is_blank(input.date->0@)) ==> local_date_at(e.date, ms, off)
}

/// Adds an entry with a fresh random id, made now, for the local date of
/// today when no day is given (see `create_journal_at`).  A day given that
/// is not three fields of numbers, or whose month is outside `1..=12`, is
/// refused; whether another day of that form exists is chrono's answer for
/// the local time zone.
pub fn create_journal(store: &mut Store, input: &JournalInput) -> (r: Result<JournalEntry, String>)
    requires
        old(store).wf(),
    ensures
        final(store).wf(),
        r is Err ==> *final(store) == *old(store),
        is_blank(body_of(input)) ==> (r matches Err(e) && e@ == empty_body_message()),
        !is_blank(body_of(input)) && input.date is Some && !is_blank(input.date->0@)
            && calendar_refused(trim(input.date->0@)) ==> (r matches Err(e) && e@
            == invalid_date_message(trim(input.date->0@))),
        r matches Ok(e) ==> {
            &&& is_uuid_v4_text(e.id@)
            &&& !journal_ids(old(store).journals@).contains(e.id@)
            &&& !calendar_refused(e.date@)
            &&& (input.date is Some && !is_blank(input.date->0@) ==> e.date@ == trim(
                input.date->0@,
            ))
            &&& exists|ms: int|
                in_range(ms) && e@ == new_journal(e.id@, iso_utc_millis(ms), e.date@, input)
            &&& exists|ms: int, off: int| #[trigger] made_on_local_day(e@, input, ms, off)
            &&& final(store).journals@ == old(store).journals@.push(e)
            &&& label_set(final(store).journal_labels@) == relabelled(
                old(store).journal_labels@,
                e.id@,
                labels_of(body_of(input)),
            )
            &&& journal_others_kept(*old(store), *final(store))
        },
        labels_follow_bodies(*old(store)) ==> labels_follow_bodies(*final(store)),
{
    let ms = crate::time::utc_now_millis();
    let today = crate::time::local_date_string(ms);
    let date = journal_date(input, today.as_str());
    let date_ok = day_bounds(date.as_str()).is_some();
    let id = new_uuid();
    let now = crate::time::iso_utc_z_millis(ms);
    let r = create_journal_at(store, id.as_str(), now.as_str(), today.as_str(), date_ok, input);
    proof {
        if let Ok(e) = &r {
            let off = choose|off: int|
                #![trigger local_date_at(today@, ms as int, off)]
                is_utc_offset(off) && local_date_at(today@, ms as int, off);
            assert(made_on_local_day(e@, input, ms as int, off));
        }
    }
    r
}

/// The title an edit asks for when it names a title: none for a missing or
/// blank one, else the title trimmed.
pub fn patch_title(title: Option<String>) -> (r: Option<Option<String>>)
    ensures
        r matches Some(t) && t.deep_view() == journal_title_of(title),
{
    Some(journal_title(&title))
}

/// The day of an entry after an edit: the day given, else the old one.
pub open spec fn patched_date_of(old_date: Seq<char>, patch: &JournalPatch) -> Seq<char> {
    match patch.date {
        Some(d) => d@,
        None => old_date,
    }
}

/// An entry after an edit at `now`: the fields given replace the old ones.
pub open spec fn patched_journal(e: JournalView, patch: &JournalPatch, now: Seq<char>) -> JournalView {
    JournalView {
        title: match patch.title {
            Some(t) => t.deep_view(),
            None => e.title,
        },
        body: match patch.body {
            Some(b) => b@,
            None => e.body,
        },
        date: patched_date_of(e.date, patch),
        updated_at: now,
        ..e
    }
}

/// The day the entry `id` would have after the edit; `None` when there is
/// no such entry.
pub fn patched_date(store: &Store, id: &str, patch: &JournalPatch) -> (r: Option<String>)
    requires
        store.wf(),
    ensures
        r is None <==> !journal_ids(store.journals@).contains(id@),
        r matches Some(d) ==> exists|k: int|
            0 <= k < store.journals@.len() && #[trigger] store.journals@[k].id@ == id@ && d@
                == patched_date_of(store.journals@[k].date@, patch),
{
    match find_journal(&store.journals, id) {
        None => None,
        Some(k) => match &patch.date {
            Some(d) => Some(d.clone()),
            None => Some(store.journals[k].date.clone()),
        },
    }
}

/// Edits the entry `id` at `now` and gives it the labels written in its
/// (new) body.  `date_ok` says whether the entry's new day is a day of the
/// calendar.  Refused, with nothing changed: no such entry; a new body that
/// is empty or blank; a day that is not a date.
pub fn update_journal_at(
    store: &mut Store,
    id: &str,
    patch: &JournalPatch,
    now: &str,
    date_ok: bool,
) -> (r: Result<JournalEntry, String>)
    requires
        old(store).wf(),
    ensures
        final(store).wf(),
        r is Err ==> *final(store) == *old(store),
        !journal_ids(old(store).journals@).contains(id@) ==> (r matches Err(e) && e@
            == journal_not_found(id@)),
        journal_ids(old(store).journals@).contains(id@) && patch.body is Some && is_blank(
            patch.body->0@,
        ) ==> (r matches Err(e) && e@ == empty_body_message()),
        forall|k: int|
            0 <= k < old(store).journals@.len() && #[trigger] old(store).journals@[k].id@ == id@
                && !(patch.body is Some && is_blank(patch.body->0@)) ==> if date_ok {
                r matches Ok(e) && e@ == patched_journal(old(store).journals@[k]@, patch, now@)
                    && final(store).journals@ == old(store).journals@.update(k, e)
            } else {
                r matches Err(e) && e@ == invalid_date_message(
                    patched_date_of(old(store).journals@[k].date@, patch),
                )
            },
        r matches Ok(e) ==> label_set(final(store).journal_labels@) == relabelled(
            old(store).journal_labels@,
            id@,
            labels_of(e.body@),
        ) && journal_others_kept(*old(store), *final(store)),
        labels_follow_bodies(*old(store)) ==> labels_follow_bodies(*final(store)),
{
    let k = match find_journal(&store.journals, id) {
        Some(k) => k,
        None => {
            return Err(concat("journal not found: ", id));
        },
    };
    let ghost before = *store;
    proof {
        assert forall|j: int|
            0 <= j < before.journals@.len() && #[trigger] before.journals@[j].id@ == id@ implies j
            == k by {
            if j != k {
                assert(before.journals@[k as int].id@ == before.journals@[j].id@);
            }
        }
    }
    let existing = &store.journals[k];
    let title = match &patch.title {
        None => clone_opt_string(&existing.title),
        Some(t) => clone_opt_string(t),
    };
    let body = match &patch.body {
        Some(b) => {
            if blank(b.as_str()) {
                return Err("journal body must not be empty".to_owned());
            }
            b.clone()
        },
        None => existing.body.clone(),
    };
    let date = match &patch.date {
        Some(d) => d.clone(),
        None => existing.date.clone(),
    };
    if !date_ok {
        return Err(concat("invalid date: ", date.as_str()));
    }
    let e = JournalEntry {
        id: existing.id.clone(),
        title,
        body,
        date,
        created_at: existing.created_at.clone(),
        updated_at: now.to_owned(),
        deleted_at: clone_opt_string(&existing.deleted_at),
    };
    let labels = parse_labels(e.body.as_str());
    store.journals.set(k, e.clone());
    proof {
        lemma_wf_journal_replaced(before, *store, k as int, e);
        assert(journal_ids(store.journals@).contains(id@)) by {
            assert(store.journals@[k as int].id@ == id@);
        }
    }
    let res = update_journal_labels(store, id, labels.as_slice());
    assert(res is Ok);
    assert(texts(labels@) == labels_of(e.body@));
    proof {
        if labels_follow_bodies(before) {
            lemma_follow_after_relabel(before, *store, k as int);
        }
    }
    Ok(e)
}

/// Edits the entry `id` now (see `update_journal_at`).  A new day that is
/// not three fields of numbers, or whose month is outside `1..=12`, is
/// refused; whether another day of that form exists is chrono's answer for
/// the local time zone.
pub fn update_journal(store: &mut Store, id: &str, patch: &JournalPatch) -> (r: Result<
    JournalEntry,
    String,
>)
    requires
        old(store).wf(),
    ensures
        final(store).wf(),
        r is Err ==> *final(store) == *old(store),
        !journal_ids(old(store).journals@).contains(id@) ==> (r matches Err(e) && e@
            == journal_not_found(id@)),
        journal_ids(old(store).journals@).contains(id@) && patch.body is Some && is_blank(
            patch.body->0@,
        ) ==> (r matches Err(e) && e@ == empty_body_message()),
        forall|k: int|
            0 <= k < old(store).journals@.len() && #[trigger] old(store).journals@[k].id@ == id@
                && !(patch.body is Some && is_blank(patch.body->0@)) && calendar_refused(
                patched_date_of(old(store).journals@[k].date@, patch),
            ) ==> (r matches Err(e) && e@ == invalid_date_message(
                patched_date_of(old(store).journals@[k].date@, patch),
            )),
        r matches Ok(e) ==> exists|k: int, ms: int|
            #![trigger old(store).journals@[k], iso_utc_millis(ms)]
            0 <= k < old(store).journals@.len() && old(store).journals@[k].id@ == id@ && in_range(ms)
                && e@ == patched_journal(old(store).journals@[k]@, patch, iso_utc_millis(ms))
                && !calendar_refused(e.date@) && final(store).journals@ == old(
                store,
            ).journals@.update(k, e),
        r matches Ok(e) ==> label_set(final(store).journal_labels@) == relabelled(
            old(store).journal_labels@,
            id@,
            labels_of(e.body@),
        ) && journal_others_kept(*old(store), *final(store)),
        labels_follow_bodies(*old(store)) ==> labels_follow_bodies(*final(store)),
{
    let date_ok = match patched_date(store, id, patch) {
        Some(d) => day_bounds(d.as_str()).is_some(),
        None => false,
    };
    let ms = crate::time::utc_now_millis();
    let now = crate::time::iso_utc_z_millis(ms);
    update_journal_at(store, id, patch, now.as_str(), date_ok)
}

/// An entry marked deleted `now`.
pub open spec fn deleted_journal(e: JournalView, now: Seq<char>) -> JournalView {
    JournalView { deleted_at: Some(now), updated_at: now, ..e }
}

/// Marks the entry `id` deleted at `now`; it stays in the table.  Nothing
/// changes when there is no such entry.
pub fn soft_delete_journal_at(store: &mut Store, id: &str, now: &str)
    requires
        old(store).wf(),
    ensures
        final(store).wf(),
        final(store).journal_labels == old(store).journal_labels,
        journal_others_kept(*old(store), *final(store)),
        !journal_ids(old(store).journals@).contains(id@) ==> final(store).journals
            == old(store).journals,
        journal_ids(old(store).journals@).contains(id@) ==> exists|k: int|
            0 <= k < old(store).journals@.len() && #[trigger] old(store).journals@[k].id@ == id@
                && final(store).journals@ == old(store).journals@.update(k, final(store).journals@[k])
                && final(store).journals@[k]@ == deleted_journal(old(store).journals@[k]@, now@),
        labels_follow_bodies(*old(store)) ==> labels_follow_bodies(*final(store)),
{
    let k = match find_journal(&store.journals, id) {
        Some(k) => k,
        None => {
            return ;
        },
    };
    let ghost before = *store;
    let existing = &store.journals[k];
    let e = JournalEntry {
        id: existing.id.clone(),
        title: clone_opt_string(&existing.title),
        body: existing.body.clone(),
        date: existing.date.clone(),
        created_at: existing.created_at.clone(),
        updated_at: now.to_owned(),
        deleted_at: Some(now.to_owned()),
    };
    store.journals.set(k, e);
    proof {
        lemma_wf_journal_replaced(before, *store, k as int, e);
        assert(store.journals@ == before.journals@.update(k as int, store.journals@[k as int]));
    }
}

/// Marks the entry `id` deleted now (see `soft_delete_journal_at`).
pub fn soft_delete_journal(store: &mut Store, id: &str)
    requires
        old(store).wf(),
    ensures
        final(store).wf(),
        final(store).journal_labels == old(store).journal_labels,
        journal_others_kept(*old(store), *final(store)),
        !journal_ids(old(store).journals@).contains(id@) ==> final(store).journals
            == old(store).journals,
        journal_ids(old(store).journals@).contains(id@) ==> exists|k: int, ms: int|
            #![trigger old(store).journals@[k], iso_utc_millis(ms)]
            0 <= k < old(store).journals@.len() && old(store).journals@[k].id@ == id@ && in_range(ms)
                && final(store).journals@ == old(store).journals@.update(k, final(store).journals@[k])
                && final(store).journals@[k]@ == deleted_journal(
                old(store).journals@[k]@,
                iso_utc_millis(ms),
            ),
        labels_follow_bodies(*old(store)) ==> labels_follow_bodies(*final(store)),
{
    let ms = crate::time::utc_now_millis();
    let now = crate::time::iso_utc_z_millis(ms);
    soft_delete_journal_at(store, id, now.as_str())
}
} // verus!
