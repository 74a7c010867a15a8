//! The tables of the assistant's data, with the keys and references that
//! every table keeps.
//!
//! `Store` holds the rows of every table: to-dos, journal entries, their
//! labels, activity segments, settings, and applied schema versions.  Its
//! well-formedness (`wf`) is what the database's keys enforce: ids are unique,
//! a label row exists once and belongs to an existing to-do or entry, and a
//! segment refers only to an existing to-do.

use vstd::prelude::*;

use crate::journal::JournalEntry;
use crate::segment::Segment;
use crate::text::text_eq;
use crate::todos::Todo;

verus! {

/// A label attached to a to-do or a journal entry (its owner).
pub struct LabelRow {
    pub owner: String,
    pub label: String,
}

impl Clone for LabelRow {
    fn clone(&self) -> (r: LabelRow)
        ensures
            r == *self,
    {
        LabelRow { owner: self.owner.clone(), label: self.label.clone() }
    }
}

/// One stored setting.
pub struct Setting {
    pub key: String,
    pub value: String,
}

/// One applied schema version and when it was applied.
pub struct AppliedMigration {
    pub version: i64,
    pub applied_at: String,
}

/// Why a write was refused.
#[derive(Debug, Clone, Copy, PartialEq, Eq, Structural)]
pub enum StoreError {
    /// A row with the same key exists already.
    DuplicateKey,
    /// The row refers to a to-do or journal entry that does not exist.
    MissingParent,
    /// No row has the id asked for.
    NoSuchRow,
}

/// All tables.
pub struct Store {
    pub todos: Vec<Todo>,
    pub todo_labels: Vec<LabelRow>,
    pub journals: Vec<JournalEntry>,
    pub journal_labels: Vec<LabelRow>,
    pub segments: Vec<Segment>,
    pub settings: Vec<Setting>,
    pub migrations: Vec<AppliedMigration>,
}

/// No (owner, label) pair occurs twice.
pub open spec fn distinct_label_rows(rows: Seq<LabelRow>) -> bool {
    forall|i: int, j: int|
        0 <= i < j < rows.len() ==> !(#[trigger] rows[i].owner@ == #[trigger] rows[j].owner@
            && rows[i].label@ == rows[j].label@)
}

/// The ids of a sequence of to-dos.
pub open spec fn todo_ids(todos: Seq<Todo>) -> Set<Seq<char>> {
    Set::new(|id: Seq<char>| exists|i: int| 0 <= i < todos.len() && #[trigger] todos[i].id@ == id)
}

/// The ids of a sequence of journal entries.
pub open spec fn journal_ids(journals: Seq<JournalEntry>) -> Set<Seq<char>> {
    Set::new(
        |id: Seq<char>| exists|i: int| 0 <= i < journals.len() && #[trigger] journals[i].id@ == id,
    )
}

/// Every label row belongs to one of `owners`.
pub open spec fn owned_by(rows: Seq<LabelRow>, owners: Set<Seq<char>>) -> bool {
    forall|i: int| 0 <= i < rows.len() ==> owners.contains(#[trigger] rows[i].owner@)
}

/// A to-do reference is empty or names one of `ids`.
pub open spec fn refers_to_todo(todo_id: Option<Seq<char>>, ids: Set<Seq<char>>) -> bool {
    match todo_id {
        Some(t) => ids.contains(t),
        None => true,
    }
}

impl Store {
    /// The keys and references that the tables keep.
    pub open spec fn wf(&self) -> bool {
        &&& forall|i: int, j: int|
            0 <= i < j < self.todos@.len() ==> #[trigger] self.todos@[i].id@
                != #[trigger] self.todos@[j].id@
        &&& distinct_label_rows(self.todo_labels@)
        &&& owned_by(self.todo_labels@, todo_ids(self.todos@))
        &&& forall|i: int, j: int|
            0 <= i < j < self.journals@.len() ==> #[trigger] self.journals@[i].id@
                != #[trigger] self.journals@[j].id@
        &&& distinct_label_rows(self.journal_labels@)
        &&& owned_by(self.journal_labels@, journal_ids(self.journals@))
        &&& forall|i: int, j: int|
            0 <= i < j < self.segments@.len() ==> #[trigger] self.segments@[i].id@
                != #[trigger] self.segments@[j].id@
        &&& forall|i: int|
            0 <= i < self.segments@.len() ==> refers_to_todo(
                (#[trigger] self.segments@[i]).todo_id.deep_view(),
                todo_ids(self.todos@),
            )
        &&& crate::settings::distinct_keys(self.settings@)
        &&& forall|i: int, j: int|
            0 <= i < j < self.migrations@.len() ==> #[trigger] self.migrations@[i].version
                != #[trigger] self.migrations@[j].version
    }

    /// An empty store.
    pub fn new() -> (s: Store)
        ensures
            s.wf(),
            s.todos@.len() == 0,
            s.todo_labels@.len() == 0,
            s.journals@.len() == 0,
            s.journal_labels@.len() == 0,
            s.segments@.len() == 0,
            s.settings@.len() == 0,
            s.migrations@.len() == 0,
    {
        Store {
            todos: Vec::new(),
            todo_labels: Vec::new(),
            journals: Vec::new(),
            journal_labels: Vec::new(),
            segments: Vec::new(),
            settings: Vec::new(),
            migrations: Vec::new(),
        }
    }
}

/// The position of the to-do with id `id`, if there is one.
pub fn find_todo(todos: &Vec<Todo>, id: &str) -> (r: Option<usize>)
    ensures
        match r {
            Some(i) => i < todos@.len() && todos@[i as int].id@ == id@,
            None => !todo_ids(todos@).contains(id@),
        },
{
    let mut i: usize = 0;
    while i < todos.len()
        invariant
            i <= todos@.len(),
            forall|j: int| 0 <= j < i ==> (#[trigger] todos@[j]).id@ != id@,
        decreases todos@.len() - i,
    {
        if text_eq(todos[i].id.as_str(), id) {
            return Some(i);
        }
        i = i + 1;
    }
    None
}

/// The position of the journal entry with id `id`, if there is one.
pub fn find_journal(journals: &Vec<JournalEntry>, id: &str) -> (r: Option<usize>)
    ensures
        match r {
            Some(i) => i < journals@.len() && journals@[i as int].id@ == id@,
            None => !journal_ids(journals@).contains(id@),
        },
{
    let mut i: usize = 0;
    while i < journals.len()
        invariant
            i <= journals@.len(),
            forall|j: int| 0 <= j < i ==> (#[trigger] journals@[j]).id@ != id@,
        decreases journals@.len() - i,
    {
        if text_eq(journals[i].id.as_str(), id) {
            return Some(i);
        }
        i = i + 1;
    }
    None
}

/// The position of the segment with id `id`, if there is one.
pub fn find_segment(segments: &Vec<Segment>, id: &str) -> (r: Option<usize>)
    ensures
        match r {
            Some(i) => i < segments@.len() && segments@[i as int].id@ == id@,
            None => forall|j: int| 0 <= j < segments@.len() ==> (#[trigger] segments@[j]).id@ != id@,
        },
{
    let mut i: usize = 0;
    while i < segments.len()
        invariant
            i <= segments@.len(),
            forall|j: int| 0 <= j < i ==> (#[trigger] segments@[j]).id@ != id@,
        decreases segments@.len() - i,
    {
        if text_eq(segments[i].id.as_str(), id) {
            return Some(i);
        }
        i = i + 1;
    }
    None
}


/// Adding a to-do adds its id to the ids.
pub proof fn lemma_todo_ids_push(todos: Seq<Todo>, t: Todo)
    ensures
        todo_ids(todos.push(t)) == todo_ids(todos).insert(t.id@),
{
    let grown = todos.push(t);
    assert forall|id: Seq<char>| #[trigger] todo_ids(grown).contains(id) <==> todo_ids(todos).insert(
        t.id@,
    ).contains(id) by {
        if todo_ids(grown).contains(id) {
            let i = choose|i: int| 0 <= i < grown.len() && #[trigger] grown[i].id@ == id;
            if i < todos.len() {
                assert(todos[i] == grown[i]);
            }
        }
        if todo_ids(todos).contains(id) {
            let i = choose|i: int| 0 <= i < todos.len() && #[trigger] todos[i].id@ == id;
            assert(grown[i] == todos[i]);
        }
        if id == t.id@ {
            assert(grown[todos.len() as int] == t);
        }
    }
    assert(todo_ids(grown) =~= todo_ids(todos).insert(t.id@));
}

/// Replacing a to-do by one with the same id keeps the ids.
pub proof fn lemma_todo_ids_update(todos: Seq<Todo>, k: int, t: Todo)
    requires
        0 <= k < todos.len(),
        t.id@ == todos[k].id@,
    ensures
        todo_ids(todos.update(k, t)) == todo_ids(todos),
{
    let changed = todos.update(k, t);
    assert forall|id: Seq<char>| #[trigger] todo_ids(changed).contains(id) <==> todo_ids(
        todos,
    ).contains(id) by {
        if todo_ids(changed).contains(id) {
            let i = choose|i: int| 0 <= i < changed.len() && #[trigger] changed[i].id@ == id;
            assert(todos[i].id@ == id);
        }
        if todo_ids(todos).contains(id) {
            let i = choose|i: int| 0 <= i < todos.len() && #[trigger] todos[i].id@ == id;
            assert(changed[i].id@ == id);
        }
    }
    assert(todo_ids(changed) =~= todo_ids(todos));
}

/// Adding a journal entry adds its id to the ids.
pub proof fn lemma_journal_ids_push(journals: Seq<JournalEntry>, e: JournalEntry)
    ensures
        journal_ids(journals.push(e)) == journal_ids(journals).insert(e.id@),
{
    let grown = journals.push(e);
    assert forall|id: Seq<char>| #[trigger] journal_ids(grown).contains(id) <==> journal_ids(
        journals,
    ).insert(e.id@).contains(id) by {
        if journal_ids(grown).contains(id) {
            let i = choose|i: int| 0 <= i < grown.len() && #[trigger] grown[i].id@ == id;
            if i < journals.len() {
                assert(journals[i] == grown[i]);
            }
        }
        if journal_ids(journals).contains(id) {
            let i = choose|i: int| 0 <= i < journals.len() && #[trigger] journals[i].id@ == id;
            assert(grown[i] == journals[i]);
        }
        if id == e.id@ {
            assert(grown[journals.len() as int] == e);
        }
    }
    assert(journal_ids(grown) =~= journal_ids(journals).insert(e.id@));
}

/// Replacing a journal entry by one with the same id keeps the ids.
pub proof fn lemma_journal_ids_update(journals: Seq<JournalEntry>, k: int, e: JournalEntry)
    requires
        0 <= k < journals.len(),
        e.id@ == journals[k].id@,
    ensures
        journal_ids(journals.update(k, e)) == journal_ids(journals),
{
    let changed = journals.update(k, e);
    assert forall|id: Seq<char>| #[trigger] journal_ids(changed).contains(id) <==> journal_ids(
        journals,
    ).contains(id) by {
        if journal_ids(changed).contains(id) {
            let i = choose|i: int| 0 <= i < changed.len() && #[trigger] changed[i].id@ == id;
            assert(journals[i].id@ == id);
        }
        if journal_ids(journals).contains(id) {
            let i = choose|i: int| 0 <= i < journals.len() && #[trigger] journals[i].id@ == id;
            assert(changed[i].id@ == id);
        }
    }
    assert(journal_ids(changed) =~= journal_ids(journals));
}


/// A lowercase hexadecimal digit.
pub open spec fn is_lower_hex(c: char) -> bool {
    ('0' <= c && c <= '9') || ('a' <= c && c <= 'f')
}

/// The hyphenated text of a random (version 4) UUID: 36 characters, hyphens
/// at 8, 13, 18 and 23, the version digit `4` at 14, the rest lowercase hex.
pub open spec fn is_uuid_v4_text(s: Seq<char>) -> bool {
    &&& s.len() == 36
    &&& forall|i: int|
        0 <= i < 36 ==> if i == 8 || i == 13 || i == 18 || i == 23 {
            #[trigger] s[i] == '-'
        } else {
            is_lower_hex(s[i])
        }
    &&& s[14] == '4'
}

/// A fresh row id from uuid's `Uuid::new_v4().to_string()`.  Which id comes
/// back is chance; what is stated is the hyphenated lowercase form that
/// uuid's `Display` writes and the version digit that `new_v4` sets.
#[verifier::external_body]
pub(crate) fn new_uuid() -> (id: String)
    ensures
        is_uuid_v4_text(id@),
{
    uuid::Uuid::new_v4().to_string()
}

/// Whether no two texts of `v` are the same.
fn texts_distinct(v: &Vec<String>) -> (r: bool)
    ensures
        r == forall|i: int, j: int| 0 <= i < j < v@.len() ==> #[trigger] v@[i]@ != #[trigger] v@[j]@,
{
    let mut j: usize = 0;
    while j < v.len()
        invariant
            j <= v@.len(),
            forall|a: int, b: int| 0 <= a < b < j ==> #[trigger] v@[a]@ != #[trigger] v@[b]@,
        decreases v@.len() - j,
    {
        let mut i: usize = 0;
        while i < j
            invariant
                i <= j < v@.len(),
                forall|a: int| 0 <= a < i ==> #[trigger] v@[a]@ != v@[j as int]@,
            decreases j - i,
        {
            if text_eq(v[i].as_str(), v[j].as_str()) {
                return false;
            }
            i = i + 1;
        }
        j = j + 1;
    }
    true
}

/// Whether no (owner, label) pair of a label table occurs twice.
fn label_rows_distinct(rows: &Vec<LabelRow>) -> (r: bool)
    ensures
        r == distinct_label_rows(rows@),
{
    let mut j: usize = 0;
    while j < rows.len()
        invariant
            j <= rows@.len(),
            forall|a: int, b: int|
                0 <= a < b < j ==> !(#[trigger] rows@[a].owner@ == #[trigger] rows@[b].owner@
                    && rows@[a].label@ == rows@[b].label@),
        decreases rows@.len() - j,
    {
        let mut i: usize = 0;
        while i < j
            invariant
                i <= j < rows@.len(),
                forall|a: int|
                    0 <= a < i ==> !(#[trigger] rows@[a].owner@ == rows@[j as int].owner@
                        && rows@[a].label@ == rows@[j as int].label@),
            decreases j - i,
        {
            if text_eq(rows[i].owner.as_str(), rows[j].owner.as_str()) && text_eq(
                rows[i].label.as_str(),
                rows[j].label.as_str(),
            ) {
                return false;
            }
            i = i + 1;
        }
        j = j + 1;
    }
    true
}

impl Store {
    /// Whether the tables keep their keys and references (see `wf`).
    pub fn is_well_formed(&self) -> (r: bool)
        ensures
            r == self.wf(),
    {
        let mut todo_ids_v: Vec<String> = Vec::new();
        let mut i: usize = 0;
        while i < self.todos.len()
            invariant
                i <= self.todos@.len(),
                todo_ids_v@.len() == i,
                forall|k: int| 0 <= k < i ==> (#[trigger] todo_ids_v@[k])@ == self.todos@[k].id@,
            decreases self.todos@.len() - i,
        {
            todo_ids_v.push(self.todos[i].id.clone());
            i = i + 1;
        }
        let todos_ok = texts_distinct(&todo_ids_v);
        assert(todos_ok == forall|a: int, b: int|
            0 <= a < b < self.todos@.len() ==> #[trigger] self.todos@[a].id@
                != #[trigger] self.todos@[b].id@) by {
            if todos_ok {
                assert forall|a: int, b: int| 0 <= a < b < self.todos@.len() implies #[trigger] self.todos@[a].id@
                    != #[trigger] self.todos@[b].id@ by {
                    assert(todo_ids_v@[a]@ != todo_ids_v@[b]@);
                }
            } else {
                let (a, b) = choose|a: int, b: int|
                    0 <= a < b < todo_ids_v@.len() && #[trigger] todo_ids_v@[a]@ == #[trigger] todo_ids_v@[b]@;
                assert(self.todos@[a].id@ == self.todos@[b].id@);
            }
        }
        let mut journal_ids_v: Vec<String> = Vec::new();
        let mut i: usize = 0;
        while i < self.journals.len()
            invariant
                i <= self.journals@.len(),
                journal_ids_v@.len() == i,
                forall|k: int| 0 <= k < i ==> (#[trigger] journal_ids_v@[k])@ == self.journals@[k].id@,
            decreases self.journals@.len() - i,
        {
            journal_ids_v.push(self.journals[i].id.clone());
            i = i + 1;
        }
        let journals_ok = texts_distinct(&journal_ids_v);
        assert(journals_ok == forall|a: int, b: int|
            0 <= a < b < self.journals@.len() ==> #[trigger] self.journals@[a].id@
                != #[trigger] self.journals@[b].id@) by {
            if journals_ok {
                assert forall|a: int, b: int| 0 <= a < b < self.journals@.len() implies #[trigger] self.journals@[a].id@
                    != #[trigger] self.journals@[b].id@ by {
                    assert(journal_ids_v@[a]@ != journal_ids_v@[b]@);
                }
            } else {
                let (a, b) = choose|a: int, b: int|
                    0 <= a < b < journal_ids_v@.len() && #[trigger] journal_ids_v@[a]@
                        == #[trigger] journal_ids_v@[b]@;
                assert(self.journals@[a].id@ == self.journals@[b].id@);
            }
        }
        let mut segment_ids_v: Vec<String> = Vec::new();
        let mut i: usize = 0;
        while i < self.segments.len()
            invariant
                i <= self.segments@.len(),
                segment_ids_v@.len() == i,
                forall|k: int| 0 <= k < i ==> (#[trigger] segment_ids_v@[k])@ == self.segments@[k].id@,
            decreases self.segments@.len() - i,
        {
            segment_ids_v.push(self.segments[i].id.clone());
            i = i + 1;
        }
        let segments_ok = texts_distinct(&segment_ids_v);
        assert(segments_ok == forall|a: int, b: int|
            0 <= a < b < self.segments@.len() ==> #[trigger] self.segments@[a].id@
                != #[trigger] self.segments@[b].id@) by {
            if segments_ok {
                assert forall|a: int, b: int| 0 <= a < b < self.segments@.len() implies #[trigger] self.segments@[a].id@
                    != #[trigger] self.segments@[b].id@ by {
                    assert(segment_ids_v@[a]@ != segment_ids_v@[b]@);
                }
            } else {
                let (a, b) = choose|a: int, b: int|
                    0 <= a < b < segment_ids_v@.len() && #[trigger] segment_ids_v@[a]@
                        == #[trigger] segment_ids_v@[b]@;
                assert(self.segments@[a].id@ == self.segments@[b].id@);
            }
        }
        let mut key_v: Vec<String> = Vec::new();
        let mut i: usize = 0;
        while i < self.settings.len()
            invariant
                i <= self.settings@.len(),
                key_v@.len() == i,
                forall|k: int| 0 <= k < i ==> (#[trigger] key_v@[k])@ == self.settings@[k].key@,
            decreases self.settings@.len() - i,
        {
            key_v.push(self.settings[i].key.clone());
            i = i + 1;
        }
        let keys_ok = texts_distinct(&key_v);
        assert(keys_ok == crate::settings::distinct_keys(self.settings@)) by {
            if keys_ok {
                assert forall|a: int, b: int| 0 <= a < b < self.settings@.len() implies #[trigger] self.settings@[a].key@
                    != #[trigger] self.settings@[b].key@ by {
                    assert(key_v@[a]@ != key_v@[b]@);
                }
            } else {
                let (a, b) = choose|a: int, b: int|
                    0 <= a < b < key_v@.len() && #[trigger] key_v@[a]@ == #[trigger] key_v@[b]@;
                assert(self.settings@[a].key@ == self.settings@[b].key@);
            }
        }
        let todo_labels_ok = label_rows_distinct(&self.todo_labels);
        let journal_labels_ok = label_rows_distinct(&self.journal_labels);
        let mut owned_todo = true;
        let mut i: usize = 0;
        while i < self.todo_labels.len()
            invariant
                i <= self.todo_labels@.len(),
                owned_todo == forall|k: int|
                    0 <= k < i ==> todo_ids(self.todos@).contains(#[trigger] self.todo_labels@[k].owner@),
            decreases self.todo_labels@.len() - i,
        {
            let found = find_todo(&self.todos, self.todo_labels[i].owner.as_str()).is_some();
            proof {
                if found {
                    let t = choose|t: int| 0 <= t < self.todos@.len() && self.todos@[t].id@ == self.todo_labels@[i as int].owner@;
                    assert(todo_ids(self.todos@).contains(self.todos@[t].id@));
                }
            }
            owned_todo = owned_todo && found;
            i = i + 1;
        }
        let mut owned_journal = true;
        let mut i: usize = 0;
        while i < self.journal_labels.len()
            invariant
                i <= self.journal_labels@.len(),
                owned_journal == forall|k: int|
                    0 <= k < i ==> journal_ids(self.journals@).contains(
                        #[trigger] self.journal_labels@[k].owner@,
                    ),
            decreases self.journal_labels@.len() - i,
        {
            let found = find_journal(&self.journals, self.journal_labels[i].owner.as_str()).is_some();
            proof {
                if found {
                    let t = choose|t: int| 0 <= t < self.journals@.len() && self.journals@[t].id@ == self.journal_labels@[i as int].owner@;
                    assert(journal_ids(self.journals@).contains(self.journals@[t].id@));
                }
            }
            owned_journal = owned_journal && found;
            i = i + 1;
        }
        let mut refs_ok = true;
        let mut i: usize = 0;
        while i < self.segments.len()
            invariant
                i <= self.segments@.len(),
                refs_ok == forall|k: int|
                    0 <= k < i ==> refers_to_todo(
                        (#[trigger] self.segments@[k]).todo_id.deep_view(),
                        todo_ids(self.todos@),
                    ),
            decreases self.segments@.len() - i,
        {
            let ok = match &self.segments[i].todo_id {
                Some(t) => find_todo(&self.todos, t.as_str()).is_some(),
                None => true,
            };
            proof {
                if ok && self.segments@[i as int].todo_id.deep_view() is Some {
                    let id = self.segments@[i as int].todo_id.deep_view()->0;
                    let t = choose|t: int| 0 <= t < self.todos@.len() && self.todos@[t].id@ == id;
                    assert(todo_ids(self.todos@).contains(self.todos@[t].id@));
                }
            }
            refs_ok = refs_ok && ok;
            i = i + 1;
        }
        let mut versions_ok = true;
        let mut j: usize = 0;
        while j < self.migrations.len()
            invariant
                j <= self.migrations@.len(),
                versions_ok == forall|a: int, b: int|
                    0 <= a < b < j ==> #[trigger] self.migrations@[a].version
                        != #[trigger] self.migrations@[b].version,
            decreases self.migrations@.len() - j,
        {
            let mut i: usize = 0;
            let mut fresh = true;
            while i < j
                invariant
                    i <= j < self.migrations@.len(),
                    fresh == forall|a: int|
                        0 <= a < i ==> #[trigger] self.migrations@[a].version
                            != self.migrations@[j as int].version,
                decreases j - i,
            {
                fresh = fresh && self.migrations[i].version != self.migrations[j].version;
                i = i + 1;
            }
            versions_ok = versions_ok && fresh;
            j = j + 1;
        }
        todos_ok && todo_labels_ok && owned_todo && journals_ok && journal_labels_ok && owned_journal
            && segments_ok && refs_ok && keys_ok && versions_ok
    }
}

} // verus!
