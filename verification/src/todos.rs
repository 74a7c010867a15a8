//! To-dos: a title, free-text detail whose `#tags` are its labels, and the
//! times it was created, changed, completed and (softly) deleted.  A to-do
//! is pending while it has no completion time, done once it has one.

use vstd::prelude::*;

use crate::labels::{contains_string, labels_of, parse_labels};
use crate::labels_store::{
    has_pair, label_set, labels_of_owner, lemma_read_after_relabel, relabelled, texts,
    update_todo_labels,
};
use crate::order::{
    lemma_rearranged_keys_distinct, lemma_text_le_antisymmetric, lemma_text_le_total,
    lemma_text_le_transitive, sort_rows, sorted_rows, text_le, text_le_exec, RowOrder,
};
use crate::store::{
    find_todo, is_uuid_v4_text, lemma_todo_ids_push, lemma_todo_ids_update, new_uuid, todo_ids,
    LabelRow, Store, StoreError,
};
use crate::text::{clone_opt_string, concat, text_eq, trim, trim_text};
use crate::time::{in_range, iso_utc_millis};

pub use crate::time::now_iso;

verus! {

/// One to-do.  Times are ISO strings.
#[derive(Debug)]
pub struct Todo {
    pub id: String,
    pub title: String,
    pub detail: String,
    pub created_at: String,
    pub updated_at: String,
    pub completed_at: Option<String>,
    pub deleted_at: Option<String>,
}

/// The value of a to-do.
pub struct TodoView {
    pub id: Seq<char>,
    pub title: Seq<char>,
    pub detail: Seq<char>,
    pub created_at: Seq<char>,
    pub updated_at: Seq<char>,
    pub completed_at: Option<Seq<char>>,
    pub deleted_at: Option<Seq<char>>,
}

impl View for Todo {
    type V = TodoView;

    open spec fn view(&self) -> TodoView {
        TodoView {
            id: self.id@,
            title: self.title@,
            detail: self.detail@,
            created_at: self.created_at@,
            updated_at: self.updated_at@,
            completed_at: self.completed_at.deep_view(),
            deleted_at: self.deleted_at.deep_view(),
        }
    }
}

impl Clone for Todo {
    fn clone(&self) -> (r: Todo)
        ensures
            r == *self,
    {
        Todo {
            id: self.id.clone(),
            title: self.title.clone(),
            detail: self.detail.clone(),
            created_at: self.created_at.clone(),
            updated_at: self.updated_at.clone(),
            completed_at: clone_opt_string(&self.completed_at),
            deleted_at: clone_opt_string(&self.deleted_at),
        }
    }
}

/// Which to-dos a list shows: with any of these labels, when some are given.
pub struct TodoFilter {
    pub labels: Option<Vec<String>>,
}

/// What a new to-do is made of.
pub struct TodoInput {
    pub title: String,
    pub detail: String,
}

/// What an edit changes: the fields given.
pub struct TodoPatch {
    pub title: Option<String>,
    pub detail: Option<String>,
}

/// How many live to-dos carry a label.
#[derive(Debug)]
pub struct LabelCount {
    pub label: String,
    pub count: i64,
}

/// A to-do with no completion time.
pub open spec fn is_pending(t: Todo) -> bool {
    t.completed_at.deep_view() is None
}

/// The order of the to-do list: pending before done; pending by creation
/// time, newest first; done by completion time, newest first, then by
/// creation time, newest first.
pub struct TodoListOrder;

impl RowOrder<Todo> for TodoListOrder {
    open spec fn before(a: Todo, b: Todo) -> bool {
        if is_pending(a) != is_pending(b) {
            is_pending(a)
        } else if a.completed_at.deep_view() == b.completed_at.deep_view() {
            text_le(b.created_at@, a.created_at@)
        } else {
            text_le(b.completed_at.deep_view()->0, a.completed_at.deep_view()->0)
        }
    }

    proof fn lemma_total(a: Todo, b: Todo) {
        lemma_text_le_total(a.created_at@, b.created_at@);
        if !is_pending(a) && !is_pending(b) {
            lemma_text_le_total(a.completed_at.deep_view()->0, b.completed_at.deep_view()->0);
        }
    }

    proof fn lemma_transitive(a: Todo, b: Todo, c: Todo) {
        let (ca, cb, cc) = (
            a.completed_at.deep_view(),
            b.completed_at.deep_view(),
            c.completed_at.deep_view(),
        );
        if is_pending(a) == is_pending(b) && is_pending(b) == is_pending(c) {
            if ca == cb && cb == cc {
                lemma_text_le_transitive(c.created_at@, b.created_at@, a.created_at@);
            } else if ca == cb {
            } else if cb == cc {
            } else {
                lemma_text_le_transitive(cc->0, cb->0, ca->0);
                if ca == cc {
                    lemma_text_le_antisymmetric(ca->0, cb->0);
                }
            }
        }
    }

    fn le(a: &Todo, b: &Todo) -> (r: bool) {
        let pa = a.completed_at.is_none();
        let pb = b.completed_at.is_none();
        if pa != pb {
            return pa;
        }
        match (&a.completed_at, &b.completed_at) {
            (Some(x), Some(y)) => {
                if text_eq(x.as_str(), y.as_str()) {
                    text_le_exec(b.created_at.as_str(), a.created_at.as_str())
                } else {
                    text_le_exec(y.as_str(), x.as_str())
                }
            },
            _ => text_le_exec(b.created_at.as_str(), a.created_at.as_str()),
        }
    }
}

/// The labels a filter asks for, when it asks for any.
pub open spec fn wanted_labels(filter: Option<&TodoFilter>) -> Option<Seq<Seq<char>>> {
    match filter {
        Some(f) => match f.labels {
            Some(ls) => if ls@.len() > 0 {
                Some(texts(ls@))
            } else {
                None
            },
            None => None,
        },
        None => None,
    }
}

/// A to-do the list shows: not deleted, and carrying one of the wanted
/// labels when labels are wanted.
pub open spec fn listed(store: &Store, wanted: Option<Seq<Seq<char>>>, t: Todo) -> bool {
    &&& t.deleted_at.deep_view() is None
    &&& match wanted {
        Some(ls) => exists|k: int|
            0 <= k < ls.len() && label_set(store.todo_labels@).contains((t.id@, #[trigger] ls[k])),
        None => true,
    }
}

fn carries_any(store: &Store, todo_id: &str, labels: &Vec<String>) -> (r: bool)
    ensures
        r == exists|k: int|
            0 <= k < labels@.len() && label_set(store.todo_labels@).contains(
                (todo_id@, #[trigger] texts(labels@)[k]),
            ),
{
    let mut k: usize = 0;
    while k < labels.len()
        invariant
            k <= labels@.len(),
            forall|j: int|
                0 <= j < k ==> !label_set(store.todo_labels@).contains(
                    (todo_id@, #[trigger] texts(labels@)[j]),
                ),
        decreases labels@.len() - k,
    {
        if has_pair(&store.todo_labels, todo_id, labels[k].as_str()) {
            assert(texts(labels@)[k as int] == labels@[k as int]@);
            return true;
        }
        assert(texts(labels@)[k as int] == labels@[k as int]@);
        k = k + 1;
    }
    false
}

/// The to-dos that are not deleted and, when the filter names labels, carry
/// at least one of them; pending first, newest first (see `TodoListOrder`).
pub fn list_todos(store: &Store, filter: Option<&TodoFilter>) -> (r: Vec<Todo>)
    ensures
        sorted_rows::<Todo, TodoListOrder>(r@),
        r@.to_multiset() =~= store.todos@.filter(
            |t: Todo| listed(store, wanted_labels(filter), t),
        ).to_multiset(),
{
    let ghost wanted = wanted_labels(filter);
    let ghost pred = |t: Todo| listed(store, wanted, t);
    let labels: Option<&Vec<String>> = match filter {
        Some(f) => match &f.labels {
            Some(ls) => if ls.len() > 0 {
                Some(ls)
            } else {
                None
            },
            None => None,
        },
        None => None,
    };
    let mut picked: Vec<Todo> = Vec::new();
    let mut i: usize = 0;
    while i < store.todos.len()
        invariant
            i <= store.todos@.len(),
            wanted == wanted_labels(filter),
            pred == (|t: Todo| listed(store, wanted, t)),
            match labels {
                Some(ls) => wanted == Some(texts(ls@)),
                None => wanted is None,
            },
            picked@ == store.todos@.subrange(0, i as int).filter(pred),
        decreases store.todos@.len() - i,
    {
        let t = &store.todos[i];
        let keep = t.deleted_at.is_none() && match labels {
            Some(ls) => carries_any(store, t.id.as_str(), ls),
            None => true,
        };
        proof {
            assert(store.todos@.subrange(0, i + 1) =~= store.todos@.subrange(0, i as int).push(
                store.todos@[i as int],
            ));
            store.todos@.subrange(0, i as int).lemma_filter_push(store.todos@[i as int], pred);
        }
        if keep {
            picked.push(t.clone());
        }
        i = i + 1;
    }
    assert(store.todos@.subrange(0, i as int) =~= store.todos@);
    sort_rows::<Todo, TodoListOrder>(picked)
}

/// In a sorted to-do list no done to-do comes before a pending one.
pub proof fn lemma_pending_first(list: Seq<Todo>)
    requires
        sorted_rows::<Todo, TodoListOrder>(list),
    ensures
        forall|i: int, j: int|
            #![trigger list[i], list[j]]
            0 <= i < j < list.len() && is_pending(list[j]) ==> is_pending(list[i]),
{
    assert forall|i: int, j: int|
        #![trigger list[i], list[j]]
        0 <= i < j < list.len() && is_pending(list[j]) implies is_pending(list[i]) by {
        assert(TodoListOrder::before(list[i], list[j]));
    }
}


/// The to-do `id` exists and is not deleted.
pub open spec fn live_todo(todos: Seq<Todo>, id: Seq<char>) -> bool {
    exists|i: int|
        0 <= i < todos.len() && #[trigger] todos[i].id@ == id && todos[i].deleted_at.deep_view() is None
}

/// A label row of `label` whose to-do is live.
pub open spec fn live_row_of(todos: Seq<Todo>, label: Seq<char>) -> spec_fn(LabelRow) -> bool {
    |r: LabelRow| r.label@ == label && live_todo(todos, r.owner@)
}

/// How many live to-dos carry `label`.  A (to-do, label) row occurs once, so
/// this counts distinct to-dos.
pub open spec fn label_count(store: &Store, label: Seq<char>) -> nat {
    store.todo_labels@.filter(live_row_of(store.todos@, label)).len()
}

/// The order of the label list: more to-dos first, then by label text.
pub struct LabelCountOrder;

impl RowOrder<LabelCount> for LabelCountOrder {
    open spec fn before(a: LabelCount, b: LabelCount) -> bool {
        a.count > b.count || (a.count == b.count && text_le(a.label@, b.label@))
    }

    proof fn lemma_total(a: LabelCount, b: LabelCount) {
        lemma_text_le_total(a.label@, b.label@);
    }

    proof fn lemma_transitive(a: LabelCount, b: LabelCount, c: LabelCount) {
        if a.count == b.count && b.count == c.count {
            lemma_text_le_transitive(a.label@, b.label@, c.label@);
        }
    }

    fn le(a: &LabelCount, b: &LabelCount) -> (r: bool) {
        a.count > b.count || (a.count == b.count && text_le_exec(a.label.as_str(), b.label.as_str()))
    }
}

fn is_live(store: &Store, id: &str) -> (r: bool)
    requires
        store.wf(),
    ensures
        r == live_todo(store.todos@, id@),
{
    match find_todo(&store.todos, id) {
        Some(i) => {
            let r = store.todos[i].deleted_at.is_none();
            proof {
                if live_todo(store.todos@, id@) {
                    let j = choose|j: int|
                        0 <= j < store.todos@.len() && #[trigger] store.todos@[j].id@ == id@
                            && store.todos@[j].deleted_at.deep_view() is None;
                    if j != i {
                        assert(store.todos@[i as int].id@ == store.todos@[j].id@);
                    }
                }
            }
            r
        },
        None => {
            proof {
                if live_todo(store.todos@, id@) {
                    let j = choose|j: int|
                        0 <= j < store.todos@.len() && #[trigger] store.todos@[j].id@ == id@
                            && store.todos@[j].deleted_at.deep_view() is None;
                    assert(todo_ids(store.todos@).contains(id@));
                }
            }
            false
        },
    }
}

fn count_label(store: &Store, label: &str) -> (n: i64)
    requires
        store.wf(),
        store.todo_labels@.len() <= i64::MAX,
    ensures
        n == label_count(store, label@),
{
    let ghost pred = live_row_of(store.todos@, label@);
    let ghost rows = store.todo_labels@;
    let mut n: i64 = 0;
    let mut i: usize = 0;
    while i < store.todo_labels.len()
        invariant
            i <= rows.len(),
            rows == store.todo_labels@,
            store.wf(),
            rows.len() <= i64::MAX,
            pred == live_row_of(store.todos@, label@),
            n == rows.subrange(0, i as int).filter(pred).len(),
        decreases rows.len() - i,
    {
        proof {
            let prefix = rows.subrange(0, i as int);
            assert(rows.subrange(0, i + 1) =~= prefix.push(rows[i as int]));
            prefix.lemma_filter_len_push(pred, rows[i as int]);
            prefix.lemma_filter_len(pred);
        }
        let row = &store.todo_labels[i];
        if text_eq(row.label.as_str(), label) && is_live(store, row.owner.as_str()) {
            n = n + 1;
        }
        i = i + 1;
    }
    assert(rows.subrange(0, i as int) =~= rows);
    n
}

/// The labels that live to-dos carry, each once.
fn live_labels(store: &Store) -> (names: Vec<String>)
    requires
        store.wf(),
    ensures
        forall|a: int, b: int| 0 <= a < b < names@.len() ==> #[trigger] names@[a]@ != #[trigger] names@[b]@,
        forall|k: int| 0 <= k < names@.len() ==> label_count(store, #[trigger] names@[k]@) > 0,
        forall|l: Seq<char>| label_count(store, l) > 0 ==> #[trigger] texts(names@).contains(l),
{
    let ghost rows = store.todo_labels@;
    let mut names: Vec<String> = Vec::new();
    let mut i: usize = 0;
    while i < store.todo_labels.len()
        invariant
            i <= rows.len(),
            rows == store.todo_labels@,
            store.wf(),
            forall|a: int, b: int| 0 <= a < b < names@.len() ==> #[trigger] names@[a]@ != #[trigger] names@[b]@,
            forall|k: int| 0 <= k < names@.len() ==> exists|j: int|
                0 <= j < i && #[trigger] rows[j].label@ == (#[trigger] names@[k])@
                    && live_todo(store.todos@, rows[j].owner@),
            forall|j: int| 0 <= j < i && live_todo(store.todos@, (#[trigger] rows[j]).owner@)
                ==> texts(names@).contains(rows[j].label@),
        decreases rows.len() - i,
    {
        let row = &store.todo_labels[i];
        let ghost before = names@;
        if is_live(store, row.owner.as_str()) && !contains_string(&names, &row.label) {
            names.push(row.label.clone());
            assert(texts(names@) =~= texts(before).push(row.label@));
            assert forall|a: int, b: int| 0 <= a < b < names@.len() implies #[trigger] names@[a]@
                != #[trigger] names@[b]@ by {
                if b == before.len() {
                    assert(texts(before)[a] == names@[a]@);
                }
            }
            assert forall|k: int| 0 <= k < names@.len() implies exists|j: int|
                0 <= j < i + 1 && #[trigger] rows[j].label@ == (#[trigger] names@[k])@
                    && live_todo(store.todos@, rows[j].owner@) by {
                if k == before.len() {
                    assert(rows[i as int].label@ == names@[k]@);
                } else {
                    assert(names@[k] == before[k]);
                }
            }
            assert forall|j: int| 0 <= j < i + 1 && live_todo(store.todos@, (#[trigger] rows[j]).owner@)
                implies texts(names@).contains(rows[j].label@) by {
                if j < i {
                    let m = choose|m: int| 0 <= m < texts(before).len() && texts(before)[m] == rows[j].label@;
                    assert(texts(names@)[m] == rows[j].label@);
                } else {
                    assert(texts(names@)[before.len() as int] == rows[j].label@);
                }
            }
        }
        i = i + 1;
    }
    assert forall|k: int| 0 <= k < names@.len() implies label_count(store, #[trigger] names@[k]@) > 0 by {
        let j = choose|j: int|
            0 <= j < rows.len() && #[trigger] rows[j].label@ == names@[k]@ && live_todo(
                store.todos@,
                rows[j].owner@,
            );
        let pred = live_row_of(store.todos@, names@[k]@);
        assert(pred(rows[j]));
        rows.lemma_filter_contains(pred, j);
    }
    assert forall|l: Seq<char>| label_count(store, l) > 0 implies #[trigger] texts(names@).contains(l) by {
        let pred = live_row_of(store.todos@, l);
        let picked = rows.filter(pred);
        rows.lemma_filter_pred(pred, 0);
        assert(picked.contains(picked[0]));
        rows.lemma_filter_contains_rev(pred, picked[0]);
        let j = choose|j: int| 0 <= j < rows.len() && rows[j] == picked[0];
        assert(live_todo(store.todos@, rows[j].owner@));
    }
    names
}

/// Every label that a live to-do carries, with the number of live to-dos
/// that carry it; most carried first, then by label text.
pub fn list_todo_labels(store: &Store) -> (r: Vec<LabelCount>)
    requires
        store.wf(),
        store.todo_labels@.len() <= i64::MAX,
    ensures
        sorted_rows::<LabelCount, LabelCountOrder>(r@),
        forall|i: int|
            0 <= i < r@.len() ==> (#[trigger] r@[i]).count == label_count(store, r@[i].label@)
                && r@[i].count > 0,
        forall|i: int, j: int| 0 <= i < j < r@.len() ==> #[trigger] r@[i].label@ != #[trigger] r@[j].label@,
        forall|l: Seq<char>|
            label_count(store, l) > 0 ==> exists|i: int| 0 <= i < r@.len() && #[trigger] r@[i].label@ == l,
{
    broadcast use vstd::seq_lib::group_to_multiset_ensures;

    let names = live_labels(store);
    let mut counts: Vec<LabelCount> = Vec::new();
    let mut k: usize = 0;
    while k < names.len()
        invariant
            k <= names@.len(),
            counts@.len() == k,
            store.wf(),
            store.todo_labels@.len() <= i64::MAX,
            forall|m: int|
                0 <= m < k ==> (#[trigger] counts@[m]).label@ == names@[m]@ && counts@[m].count
                    == label_count(store, names@[m]@),
        decreases names@.len() - k,
    {
        let n = count_label(store, names[k].as_str());
        counts.push(LabelCount { label: names[k].clone(), count: n });
        k = k + 1;
    }
    let ghost unsorted = counts@;
    let r = sort_rows::<LabelCount, LabelCountOrder>(counts);
    proof {
        assert forall|i: int| 0 <= i < r@.len() implies (#[trigger] r@[i]).count == label_count(
            store,
            r@[i].label@,
        ) && r@[i].count > 0 by {
            assert(r@.contains(r@[i]));
            assert(r@.to_multiset().count(r@[i]) > 0);
            assert(unsorted.to_multiset().count(r@[i]) > 0);
            assert(unsorted.contains(r@[i]));
            let m = choose|m: int| 0 <= m < unsorted.len() && unsorted[m] == r@[i];
            assert(label_count(store, names@[m]@) > 0);
        }
        assert forall|a: int, b: int| 0 <= a < b < unsorted.len() implies (|c: LabelCount| c.label@)(
            #[trigger] unsorted[a],
        ) != (|c: LabelCount| c.label@)(#[trigger] unsorted[b]) by {
            assert(names@[a]@ != names@[b]@);
        }
        lemma_rearranged_keys_distinct(r@, unsorted, |c: LabelCount| c.label@);
        assert forall|i: int, j: int| 0 <= i < j < r@.len() implies #[trigger] r@[i].label@
            != #[trigger] r@[j].label@ by {
            assert((|c: LabelCount| c.label@)(r@[i]) != (|c: LabelCount| c.label@)(r@[j]));
        }
        assert forall|l: Seq<char>| label_count(store, l) > 0 implies exists|i: int|
            0 <= i < r@.len() && #[trigger] r@[i].label@ == l by {
            assert(texts(names@).contains(l));
            let m = choose|m: int| 0 <= m < texts(names@).len() && texts(names@)[m] == l;
            assert(unsorted.contains(unsorted[m]));
            assert(unsorted.to_multiset().count(unsorted[m]) > 0);
            assert(r@.to_multiset().count(unsorted[m]) > 0);
            assert(r@.contains(unsorted[m]));
            let i = choose|i: int| 0 <= i < r@.len() && r@[i] == unsorted[m];
            assert(r@[i].label@ == l);
        }
    }
    r
}

/// The tables other than the to-dos and their labels are as they were.
pub open spec fn others_kept(before: Store, after: Store) -> bool {
    &&& after.journals == before.journals
    &&& after.journal_labels == before.journal_labels
    &&& after.segments == before.segments
    &&& after.settings == before.settings
    &&& after.migrations == before.migrations
}

/// Adding a to-do with a new id keeps the tables well formed.
proof fn lemma_wf_todo_added(before: Store, after: Store, t: Todo)
    requires
        before.wf(),
        !todo_ids(before.todos@).contains(t.id@),
        after.todos@ == before.todos@.push(t),
        after.todo_labels == before.todo_labels,
        others_kept(before, after),
    ensures
        after.wf(),
        todo_ids(after.todos@) == todo_ids(before.todos@).insert(t.id@),
{
    lemma_todo_ids_push(before.todos@, t);
    let n = before.todos@.len() as int;
    assert forall|i: int, j: int| 0 <= i < j < after.todos@.len() implies #[trigger] after.todos@[i].id@
        != #[trigger] after.todos@[j].id@ by {
        assert(after.todos@[i] == before.todos@[i]);
        if j == n {
            assert(todo_ids(before.todos@).contains(before.todos@[i].id@));
        } else {
            assert(after.todos@[j] == before.todos@[j]);
        }
    }
    assert forall|i: int| 0 <= i < after.segments@.len() implies crate::store::refers_to_todo(
        (#[trigger] after.segments@[i]).todo_id.deep_view(),
        todo_ids(after.todos@),
    ) by {
        assert(crate::store::refers_to_todo(
            before.segments@[i].todo_id.deep_view(),
            todo_ids(before.todos@),
        ));
    }
}

/// Replacing a to-do by one with the same id keeps the tables well formed.
proof fn lemma_wf_todo_replaced(before: Store, after: Store, k: int, t: Todo)
    requires
        before.wf(),
        0 <= k < before.todos@.len(),
        t.id@ == before.todos@[k].id@,
        after.todos@ == before.todos@.update(k, t),
        after.todo_labels == before.todo_labels,
        others_kept(before, after),
    ensures
        after.wf(),
        todo_ids(after.todos@) == todo_ids(before.todos@),
{
    lemma_todo_ids_update(before.todos@, k, t);
    assert forall|i: int, j: int| 0 <= i < j < after.todos@.len() implies #[trigger] after.todos@[i].id@
        != #[trigger] after.todos@[j].id@ by {
        assert(after.todos@[i].id@ == before.todos@[i].id@);
        assert(after.todos@[j].id@ == before.todos@[j].id@);
    }
}

/// Every to-do carries exactly the labels written in its detail.
pub open spec fn labels_follow_details(store: Store) -> bool {
    forall|i: int|
        0 <= i < store.todos@.len() ==> labels_of_owner(
            store.todo_labels@,
            (#[trigger] store.todos@[i]).id@,
        ) == labels_of(store.todos@[i].detail@).to_set()
}

/// Relabelling one to-do with the labels of its new detail keeps every
/// to-do's labels following its detail.
proof fn lemma_follow_after_relabel(before: Store, after: Store, k: int)
    requires
        before.wf(),
        after.wf(),
        labels_follow_details(before),
        0 <= k < after.todos@.len(),
        after.todos@.len() == before.todos@.len() || (k == before.todos@.len()
            && after.todos@.len() == k + 1),
        forall|i: int|
            0 <= i < after.todos@.len() && i != k ==> #[trigger] after.todos@[i] == before.todos@[i],
        label_set(after.todo_labels@) == relabelled(
            before.todo_labels@,
            after.todos@[k].id@,
            labels_of(after.todos@[k].detail@),
        ),
    ensures
        labels_follow_details(after),
{
    let id = after.todos@[k].id@;
    assert forall|i: int| 0 <= i < after.todos@.len() implies labels_of_owner(
        after.todo_labels@,
        (#[trigger] after.todos@[i]).id@,
    ) == labels_of(after.todos@[i].detail@).to_set() by {
        if i == k {
            lemma_read_after_relabel(
                before.todo_labels@,
                after.todo_labels@,
                id,
                labels_of(after.todos@[k].detail@),
                id + seq!['x'],
            );
        } else {
            assert(after.todos@[i].id@ != id);
            lemma_read_after_relabel(
                before.todo_labels@,
                after.todo_labels@,
                id,
                labels_of(after.todos@[k].detail@),
                after.todos@[i].id@,
            );
            assert(before.todos@[i] == after.todos@[i]);
            assert(labels_of_owner(before.todo_labels@, before.todos@[i].id@) == labels_of(
                before.todos@[i].detail@,
            ).to_set());
        }
    }
}

/// A new to-do: title trimmed, detail as written, created and changed `now`.
pub open spec fn new_todo(id: Seq<char>, now: Seq<char>, input: &TodoInput) -> TodoView {
    TodoView {
        id: id,
        title: trim(input.title@),
        detail: input.detail@,
        created_at: now,
        updated_at: now,
        completed_at: None,
        deleted_at: None,
    }
}

/// Adds a to-do with id `id` made `now`, and gives it the labels written in
/// its detail.  Refused, with nothing changed, when the id is taken.
pub fn create_todo_at(store: &mut Store, id: &str, now: &str, input: &TodoInput) -> (r: Result<
    Todo,
    StoreError,
>)
    requires
        old(store).wf(),
    ensures
        final(store).wf(),
        r is Err <==> todo_ids(old(store).todos@).contains(id@),
        r matches Err(e) ==> e == StoreError::DuplicateKey && *final(store) == *old(store),
        r matches Ok(t) ==> t@ == new_todo(id@, now@, input) && final(store).todos@ == old(
            store,
        ).todos@.push(t) && label_set(final(store).todo_labels@) == relabelled(
            old(store).todo_labels@,
            id@,
            labels_of(input.detail@),
        ) && others_kept(*old(store), *final(store)),
        labels_follow_details(*old(store)) ==> labels_follow_details(*final(store)),
{
    if find_todo(&store.todos, id).is_some() {
        return Err(StoreError::DuplicateKey);
    }
    let ghost before = *store;
    let t = Todo {
        id: id.to_owned(),
        title: trim_text(input.title.as_str()),
        detail: input.detail.clone(),
        created_at: now.to_owned(),
        updated_at: now.to_owned(),
        completed_at: None,
        deleted_at: None,
    };
    store.todos.push(t.clone());
    proof {
        lemma_wf_todo_added(before, *store, t);
    }
    let labels = parse_labels(input.detail.as_str());
    let ghost mid = *store;
    let res = update_todo_labels(store, id, labels.as_slice());
    assert(res is Ok);
    assert(texts(labels@) == labels_of(input.detail@));
    proof {
        if labels_follow_details(before) {
            assert forall|i: int| 0 <= i < store.todos@.len() && i != before.todos@.len() implies #[trigger] store.todos@[i] == before.todos@[i] by {}
            assert(store.todos@[before.todos@.len() as int] == t);
            lemma_follow_after_relabel(before, *store, before.todos@.len() as int);
        }
    }
    Ok(t)
}

/// Adds a to-do with a fresh random id, made now.  Refused, with nothing
/// changed, in the unlikely case that the random id is taken.
pub fn create_todo(store: &mut Store, input: &TodoInput) -> (r: Result<Todo, StoreError>)
    requires
        old(store).wf(),
    ensures
        final(store).wf(),
        r matches Err(e) ==> e == StoreError::DuplicateKey && *final(store) == *old(store),
        r matches Ok(t) ==> {
            &&& is_uuid_v4_text(t.id@)
            &&& !todo_ids(old(store).todos@).contains(t.id@)
            &&& exists|ms: int| in_range(ms) && t@ == new_todo(t.id@, iso_utc_millis(ms), input)
            &&& final(store).todos@ == old(store).todos@.push(t)
            &&& label_set(final(store).todo_labels@) == relabelled(
                old(store).todo_labels@,
                t.id@,
                labels_of(input.detail@),
            )
            &&& others_kept(*old(store), *final(store))
        },
        labels_follow_details(*old(store)) ==> labels_follow_details(*final(store)),
{
    let id = new_uuid();
    let now = now_iso();
    create_todo_at(store, id.as_str(), now.as_str(), input)
}

/// The message of an edit of a to-do that does not exist.
pub open spec fn todo_not_found(id: Seq<char>) -> Seq<char> {
    "todo not found: "@ + id
}

/// A to-do after an edit at `now`: the fields given replace the old ones, a
/// new title trimmed, a new detail as written.
pub open spec fn patched_todo(t: TodoView, patch: &TodoPatch, now: Seq<char>) -> TodoView {
    TodoView {
        id: t.id,
        title: match patch.title {
            Some(x) => trim(x@),
            None => t.title,
        },
        detail: match patch.detail {
            Some(d) => d@,
            None => t.detail,
        },
        created_at: t.created_at,
        updated_at: now,
        completed_at: t.completed_at,
        deleted_at: t.deleted_at,
    }
}

/// Edits the to-do `id` at `now` and gives it the labels written in its
/// (new) detail.  Refused, with nothing changed, when there is no such to-do.
pub fn update_todo_at(store: &mut Store, id: &str, patch: &TodoPatch, now: &str) -> (r: Result<
    Todo,
    String,
>)
    requires
        old(store).wf(),
    ensures
        final(store).wf(),
        r is Err <==> !todo_ids(old(store).todos@).contains(id@),
        r matches Err(e) ==> e@ == todo_not_found(id@) && *final(store) == *old(store),
        r matches Ok(t) ==> exists|k: int|
            0 <= k < old(store).todos@.len() && #[trigger] old(store).todos@[k].id@ == id@ && t@
                == patched_todo(old(store).todos@[k]@, patch, now@) && final(store).todos@ == old(
                store,
            ).todos@.update(k, t),
        r matches Ok(t) ==> label_set(final(store).todo_labels@) == relabelled(
            old(store).todo_labels@,
            id@,
            labels_of(t.detail@),
        ) && others_kept(*old(store), *final(store)),
        labels_follow_details(*old(store)) ==> labels_follow_details(*final(store)),
{
    let k = match find_todo(&store.todos, id) {
        Some(k) => k,
        None => {
            return Err(concat("todo not found: ", id));
        },
    };
    let ghost before = *store;
    let existing = &store.todos[k];
    let title = match &patch.title {
        Some(x) => trim_text(x.as_str()),
        None => existing.title.clone(),
    };
    let detail = match &patch.detail {
        Some(d) => d.clone(),
        None => existing.detail.clone(),
    };
    let t = Todo {
        id: existing.id.clone(),
        title,
        detail,
        created_at: existing.created_at.clone(),
        updated_at: now.to_owned(),
        completed_at: clone_opt_string(&existing.completed_at),
        deleted_at: clone_opt_string(&existing.deleted_at),
    };
    let labels = parse_labels(t.detail.as_str());
    store.todos.set(k, t.clone());
    proof {
        lemma_wf_todo_replaced(before, *store, k as int, t);
        assert(todo_ids(store.todos@).contains(id@)) by {
            assert(store.todos@[k as int].id@ == id@);
        }
    }
    let res = update_todo_labels(store, id, labels.as_slice());
    assert(res is Ok);
    assert(texts(labels@) == labels_of(t.detail@));
    proof {
        if labels_follow_details(before) {
            lemma_follow_after_relabel(before, *store, k as int);
        }
    }
    Ok(t)
}

/// Edits the to-do `id` now (see `update_todo_at`).
pub fn update_todo(store: &mut Store, id: &str, patch: &TodoPatch) -> (r: Result<Todo, String>)
    requires
        old(store).wf(),
    ensures
        final(store).wf(),
        r is Err <==> !todo_ids(old(store).todos@).contains(id@),
        r matches Err(e) ==> e@ == todo_not_found(id@) && *final(store) == *old(store),
        r matches Ok(t) ==> exists|k: int, ms: int|
            #![trigger old(store).todos@[k], iso_utc_millis(ms)]
            0 <= k < old(store).todos@.len() && old(store).todos@[k].id@ == id@
                && in_range(ms) && t@ == patched_todo(old(store).todos@[k]@, patch, iso_utc_millis(ms))
                && final(store).todos@ == old(store).todos@.update(k, t),
        r matches Ok(t) ==> label_set(final(store).todo_labels@) == relabelled(
            old(store).todo_labels@,
            id@,
            labels_of(t.detail@),
        ) && others_kept(*old(store), *final(store)),
        labels_follow_details(*old(store)) ==> labels_follow_details(*final(store)),
{
    let ms = crate::time::utc_now_millis();
    let now = crate::time::iso_utc_z_millis(ms);
    update_todo_at(store, id, patch, now.as_str())
}

/// A to-do marked done (completed `now`) or not done, changed `now`.
pub open spec fn toggled_todo(t: TodoView, done: bool, now: Seq<char>) -> TodoView {
    TodoView {
        completed_at: if done {
            Some(now)
        } else {
            None
        },
        updated_at: now,
        ..t
    }
}

/// Marks the to-do `id` done at `now`, or not done.  Refused, with nothing
/// changed, when there is no such to-do.
pub fn toggle_todo_at(store: &mut Store, id: &str, done: bool, now: &str) -> (r: Result<
    Todo,
    StoreError,
>)
    requires
        old(store).wf(),
    ensures
        final(store).wf(),
        r is Err <==> !todo_ids(old(store).todos@).contains(id@),
        r matches Err(e) ==> e == StoreError::NoSuchRow && *final(store) == *old(store),
        r matches Ok(t) ==> exists|k: int|
            0 <= k < old(store).todos@.len() && #[trigger] old(store).todos@[k].id@ == id@ && t@
                == toggled_todo(old(store).todos@[k]@, done, now@) && final(store).todos@ == old(
                store,
            ).todos@.update(k, t),
        r is Ok ==> final(store).todo_labels == old(store).todo_labels && others_kept(
            *old(store),
            *final(store),
        ),
        labels_follow_details(*old(store)) ==> labels_follow_details(*final(store)),
{
    let k = match find_todo(&store.todos, id) {
        Some(k) => k,
        None => {
            return Err(StoreError::NoSuchRow);
        },
    };
    let ghost before = *store;
    let existing = &store.todos[k];
    let t = Todo {
        id: existing.id.clone(),
        title: existing.title.clone(),
        detail: existing.detail.clone(),
        created_at: existing.created_at.clone(),
        updated_at: now.to_owned(),
        completed_at: if done {
            Some(now.to_owned())
        } else {
            None
        },
        deleted_at: clone_opt_string(&existing.deleted_at),
    };
    store.todos.set(k, t.clone());
    proof {
        lemma_wf_todo_replaced(before, *store, k as int, t);
    }
    Ok(t)
}

/// Marks the to-do `id` done now, or not done (see `toggle_todo_at`).
pub fn toggle_todo(store: &mut Store, id: &str, done: bool) -> (r: Result<Todo, StoreError>)
    requires
        old(store).wf(),
    ensures
        final(store).wf(),
        r is Err <==> !todo_ids(old(store).todos@).contains(id@),
        r matches Err(e) ==> e == StoreError::NoSuchRow && *final(store) == *old(store),
        r matches Ok(t) ==> exists|k: int, ms: int|
            #![trigger old(store).todos@[k], iso_utc_millis(ms)]
            0 <= k < old(store).todos@.len() && old(store).todos@[k].id@ == id@ && in_range(ms)
                && t@ == toggled_todo(old(store).todos@[k]@, done, iso_utc_millis(ms))
                && final(store).todos@ == old(store).todos@.update(k, t),
        r is Ok ==> final(store).todo_labels == old(store).todo_labels && others_kept(
            *old(store),
            *final(store),
        ),
        labels_follow_details(*old(store)) ==> labels_follow_details(*final(store)),
{
    let ms = crate::time::utc_now_millis();
    let now = crate::time::iso_utc_z_millis(ms);
    toggle_todo_at(store, id, done, now.as_str())
}

/// A to-do marked deleted `now`.
pub open spec fn deleted_todo(t: TodoView, now: Seq<char>) -> TodoView {
    TodoView { deleted_at: Some(now), updated_at: now, ..t }
}

/// Marks the to-do `id` deleted at `now`; it stays in the table.  Nothing
/// changes when there is no such to-do.
pub fn soft_delete_todo_at(store: &mut Store, id: &str, now: &str)
    requires
        old(store).wf(),
    ensures
        final(store).wf(),
        final(store).todo_labels == old(store).todo_labels,
        others_kept(*old(store), *final(store)),
        !todo_ids(old(store).todos@).contains(id@) ==> final(store).todos == old(store).todos,
        todo_ids(old(store).todos@).contains(id@) ==> exists|k: int|
            0 <= k < old(store).todos@.len() && #[trigger] old(store).todos@[k].id@ == id@
                && final(store).todos@.len() == old(store).todos@.len() && final(store).todos@[k]@
                == deleted_todo(old(store).todos@[k]@, now@) && forall|j: int|
                0 <= j < old(store).todos@.len() && j != k ==> final(store).todos@[j]
                    == old(store).todos@[j],
        labels_follow_details(*old(store)) ==> labels_follow_details(*final(store)),
{
    let k = match find_todo(&store.todos, id) {
        Some(k) => k,
        None => {
            return ;
        },
    };
    let ghost before = *store;
    let existing = &store.todos[k];
    let t = Todo {
        id: existing.id.clone(),
        title: existing.title.clone(),
        detail: existing.detail.clone(),
        created_at: existing.created_at.clone(),
        updated_at: now.to_owned(),
        completed_at: clone_opt_string(&existing.completed_at),
        deleted_at: Some(now.to_owned()),
    };
    store.todos.set(k, t);
    proof {
        lemma_wf_todo_replaced(before, *store, k as int, t);
    }
}

/// Marks the to-do `id` deleted now (see `soft_delete_todo_at`).
pub fn soft_delete_todo(store: &mut Store, id: &str)
    requires
        old(store).wf(),
    ensures
        final(store).wf(),
        final(store).todo_labels == old(store).todo_labels,
        others_kept(*old(store), *final(store)),
        !todo_ids(old(store).todos@).contains(id@) ==> final(store).todos == old(store).todos,
        todo_ids(old(store).todos@).contains(id@) ==> exists|k: int, ms: int|
            #![trigger old(store).todos@[k], iso_utc_millis(ms)]
            0 <= k < old(store).todos@.len() && old(store).todos@[k].id@ == id@ && in_range(ms)
                && final(store).todos@.len() == old(store).todos@.len() && final(store).todos@[k]@
                == deleted_todo(old(store).todos@[k]@, iso_utc_millis(ms)) && forall|j: int|
                0 <= j < old(store).todos@.len() && j != k ==> final(store).todos@[j]
                    == old(store).todos@[j],
        labels_follow_details(*old(store)) ==> labels_follow_details(*final(store)),
{
    let ms = crate::time::utc_now_millis();
    let now = crate::time::iso_utc_z_millis(ms);
    soft_delete_todo_at(store, id, now.as_str())
}

/// A deleted to-do is never listed, whatever the filter.
pub proof fn lemma_deleted_todo_not_listed(store: &Store, wanted: Option<Seq<Seq<char>>>, t: Todo)
    requires
        t.deleted_at.deep_view() is Some,
    ensures
        !listed(store, wanted, t),
{
}

/// Without a filter every to-do that is not deleted is listed.
pub proof fn lemma_live_todo_listed(store: &Store, t: Todo)
    requires
        t.deleted_at.deep_view() is None,
    ensures
        listed(store, None, t),
{
}


/// Marking a to-do done and then not done makes it pending again, with its
/// id, title, detail, creation and deletion unchanged.
pub proof fn lemma_toggle_back_to_pending(t: TodoView, done_at: Seq<char>, undone_at: Seq<char>)
    ensures
        ({
            let back = toggled_todo(toggled_todo(t, true, done_at), false, undone_at);
            &&& back.completed_at is None
            &&& back == TodoView { updated_at: undone_at, completed_at: None, ..t }
        }),
{
}

} // verus!
