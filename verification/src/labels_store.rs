//! The label tables: which labels each to-do and each journal entry carries.
//! A label row exists once per (owner, label) and only for an existing owner.

use vstd::prelude::*;

use crate::order::{
    lemma_text_le_antisymmetric, lemma_text_le_total, lemma_text_le_transitive, text_le,
    text_le_exec, text_lt,
};
use crate::store::{
    distinct_label_rows, journal_ids, owned_by, todo_ids, LabelRow, Store, StoreError,
};
use crate::text::text_eq;

verus! {

/// The (owner, label) pairs of a label table.
pub open spec fn label_set(rows: Seq<LabelRow>) -> Set<(Seq<char>, Seq<char>)> {
    Set::new(
        |p: (Seq<char>, Seq<char>)|
            exists|i: int|
                0 <= i < rows.len() && (#[trigger] rows[i]).owner@ == p.0 && rows[i].label@ == p.1,
    )
}

/// The pairs of a label table whose owner is not `owner`.
pub open spec fn without_owner(
    rows: Seq<LabelRow>,
    owner: Seq<char>,
) -> Set<(Seq<char>, Seq<char>)> {
    label_set(rows).filter(|p: (Seq<char>, Seq<char>)| p.0 != owner)
}

/// The pairs that give `owner` the labels `labels`.
pub open spec fn owner_pairs(owner: Seq<char>, labels: Seq<Seq<char>>) -> Set<
    (Seq<char>, Seq<char>),
> {
    Set::new(|p: (Seq<char>, Seq<char>)| p.0 == owner && labels.contains(p.1))
}

/// The table after the labels of `owner` are replaced by `labels`.
pub open spec fn relabelled(
    old_rows: Seq<LabelRow>,
    owner: Seq<char>,
    labels: Seq<Seq<char>>,
) -> Set<(Seq<char>, Seq<char>)> {
    without_owner(old_rows, owner).union(owner_pairs(owner, labels))
}

/// The labels of `owner` in a label table.
pub open spec fn labels_of_owner(rows: Seq<LabelRow>, owner: Seq<char>) -> Set<Seq<char>> {
    Set::new(|l: Seq<char>| label_set(rows).contains((owner, l)))
}

/// The views of a sequence of strings.
pub open spec fn texts(v: Seq<String>) -> Seq<Seq<char>> {
    v.map_values(|s: String| s@)
}

/// Each text sorts strictly before the next: ascending, without repeats.
pub open spec fn strictly_ascending(v: Seq<Seq<char>>) -> bool {
    forall|i: int, j: int| 0 <= i < j < v.len() ==> text_lt(#[trigger] v[i], #[trigger] v[j])
}

pub fn has_pair(rows: &Vec<LabelRow>, owner: &str, label: &str) -> (r: bool)
    ensures
        r == label_set(rows@).contains((owner@, label@)),
{
    let mut i: usize = 0;
    while i < rows.len()
        invariant
            i <= rows@.len(),
            forall|j: int|
                0 <= j < i ==> !((#[trigger] rows@[j]).owner@ == owner@ && rows@[j].label@
                    == label@),
        decreases rows@.len() - i,
    {
        if text_eq(rows[i].owner.as_str(), owner) && text_eq(rows[i].label.as_str(), label) {
            return true;
        }
        i = i + 1;
    }
    false
}

/// The rows of a label table whose owner is not `owner`.
fn rows_without_owner(rows: &Vec<LabelRow>, owner: &str) -> (kept: Vec<LabelRow>)
    requires
        distinct_label_rows(rows@),
    ensures
        distinct_label_rows(kept@),
        label_set(kept@) == without_owner(rows@, owner@),
{
    let mut kept: Vec<LabelRow> = Vec::new();
    let mut i: usize = 0;
    while i < rows.len()
        invariant
            i <= rows@.len(),
            distinct_label_rows(rows@),
            distinct_label_rows(kept@),
            label_set(kept@) == without_owner(rows@.subrange(0, i as int), owner@),
        decreases rows@.len() - i,
    {
        let ghost before = kept@;
        let ghost prefix = rows@.subrange(0, i as int);
        let ghost next = rows@.subrange(0, i + 1);
        if !text_eq(rows[i].owner.as_str(), owner) {
            let row = rows[i].clone();
            kept.push(row);
            assert forall|a: int, b: int| 0 <= a < b < kept@.len() implies !(
            #[trigger] kept@[a].owner@ == #[trigger] kept@[b].owner@ && kept@[a].label@
                == kept@[b].label@) by {
                if b == before.len() && kept@[a].owner@ == kept@[b].owner@ && kept@[a].label@
                    == kept@[b].label@ {
                    assert(label_set(before).contains((kept@[a].owner@, kept@[a].label@)));
                    let j = choose|j: int|
                        0 <= j < prefix.len() && (#[trigger] prefix[j]).owner@ == kept@[a].owner@
                            && prefix[j].label@ == kept@[a].label@;
                    assert(rows@[j] == prefix[j]);
                }
            }
        }
        assert(label_set(kept@) =~= without_owner(next, owner@)) by {
            assert forall|p: (Seq<char>, Seq<char>)| label_set(kept@).contains(p) implies without_owner(
                next,
                owner@,
            ).contains(p) by {
                let k = choose|k: int|
                    0 <= k < kept@.len() && (#[trigger] kept@[k]).owner@ == p.0 && kept@[k].label@
                        == p.1;
                if k < before.len() {
                    assert(label_set(before).contains(p));
                    let j = choose|j: int|
                        0 <= j < prefix.len() && (#[trigger] prefix[j]).owner@ == p.0
                            && prefix[j].label@ == p.1;
                    assert(next[j] == prefix[j]);
                } else {
                    assert(next[i as int] == rows@[i as int]);
                }
            }
            assert forall|p: (Seq<char>, Seq<char>)| without_owner(next, owner@).contains(
                p,
            ) implies label_set(kept@).contains(p) by {
                let j = choose|j: int|
                    0 <= j < next.len() && (#[trigger] next[j]).owner@ == p.0 && next[j].label@
                        == p.1;
                if j < i {
                    assert(prefix[j] == next[j]);
                    assert(without_owner(prefix, owner@).contains(p));
                    let k = choose|k: int|
                        0 <= k < before.len() && (#[trigger] before[k]).owner@ == p.0
                            && before[k].label@ == p.1;
                    assert(kept@[k] == before[k]);
                } else {
                    assert(kept@[before.len() as int] == rows@[i as int]);
                }
            }
        }
        i = i + 1;
    }
    assert(rows@.subrange(0, i as int) =~= rows@);
    kept
}

/// Adds the pair (`owner`, `label`) unless it is there already.
fn add_label_row(rows: &mut Vec<LabelRow>, owner: &str, label: &String)
    requires
        distinct_label_rows(old(rows)@),
    ensures
        distinct_label_rows(final(rows)@),
        label_set(final(rows)@) == label_set(old(rows)@).insert((owner@, label@)),
{
    let ghost before = rows@;
    if !has_pair(rows, owner, label.as_str()) {
        rows.push(LabelRow { owner: owner.to_owned(), label: label.clone() });
        assert forall|a: int, b: int| 0 <= a < b < rows@.len() implies !(
        #[trigger] rows@[a].owner@ == #[trigger] rows@[b].owner@ && rows@[a].label@
            == rows@[b].label@) by {
            if b == before.len() {
                assert(before[a] == rows@[a]);
            }
        }
    }
    assert(label_set(rows@) =~= label_set(before).insert((owner@, label@))) by {
        assert forall|p: (Seq<char>, Seq<char>)| label_set(rows@).contains(p) implies label_set(
            before,
        ).insert((owner@, label@)).contains(p) by {
            let k = choose|k: int|
                0 <= k < rows@.len() && (#[trigger] rows@[k]).owner@ == p.0 && rows@[k].label@
                    == p.1;
            if k < before.len() {
                assert(before[k] == rows@[k]);
            }
        }
        assert forall|p: (Seq<char>, Seq<char>)| label_set(before).insert(
            (owner@, label@),
        ).contains(p) implies label_set(rows@).contains(p) by {
            if label_set(before).contains(p) {
                let k = choose|k: int|
                    0 <= k < before.len() && (#[trigger] before[k]).owner@ == p.0
                        && before[k].label@ == p.1;
                assert(rows@[k] == before[k]);
            } else if rows@.len() > before.len() {
                assert(rows@[before.len() as int].owner@ == p.0);
            }
        }
    }
}

/// Replaces the labels of `owner` in a label table by `labels`, once each.
fn replace_labels(rows: &mut Vec<LabelRow>, owner: &str, labels: &[String])
    requires
        distinct_label_rows(old(rows)@),
    ensures
        distinct_label_rows(final(rows)@),
        label_set(final(rows)@) == relabelled(old(rows)@, owner@, texts(labels@)),
{
    let ghost old_rows = old(rows)@;
    let mut kept = rows_without_owner(rows, owner);
    let mut n: usize = 0;
    while n < labels.len()
        invariant
            n <= labels@.len(),
            distinct_label_rows(kept@),
            label_set(kept@) == without_owner(old_rows, owner@).union(
                owner_pairs(owner@, texts(labels@).subrange(0, n as int)),
            ),
        decreases labels@.len() - n,
    {
        add_label_row(&mut kept, owner, &labels[n]);
        let ghost prev = texts(labels@).subrange(0, n as int);
        let ghost next = texts(labels@).subrange(0, n + 1);
        assert(next =~= prev.push(labels@[n as int]@));
        assert(owner_pairs(owner@, next) =~= owner_pairs(owner@, prev).insert(
            (owner@, labels@[n as int]@),
        )) by {
            assert forall|l: Seq<char>| next.contains(l) <==> (prev.contains(l) || l
                == labels@[n as int]@) by {
                if next.contains(l) {
                    let m = choose|m: int| 0 <= m < next.len() && next[m] == l;
                    if m < n {
                        assert(prev[m] == l);
                    }
                }
                if prev.contains(l) {
                    let m = choose|m: int| 0 <= m < prev.len() && prev[m] == l;
                    assert(next[m] == l);
                }
                if l == labels@[n as int]@ {
                    assert(next[n as int] == l);
                }
            }
        }
        n = n + 1;
    }
    assert(texts(labels@).subrange(0, n as int) =~= texts(labels@));
    *rows = kept;
}

/// Owners of the pairs of a table stay owners of its rows.
proof fn lemma_owned_by_pairs(rows: Seq<LabelRow>, owners: Set<Seq<char>>)
    requires
        forall|p: (Seq<char>, Seq<char>)| label_set(rows).contains(p) ==> owners.contains(p.0),
    ensures
        owned_by(rows, owners),
{
    assert forall|i: int| 0 <= i < rows.len() implies owners.contains(#[trigger] rows[i].owner@) by {
        assert(label_set(rows).contains((rows[i].owner@, rows[i].label@)));
    }
}

/// The labels of `owner`, ascending in the byte order of their text.
fn labels_for(rows: &Vec<LabelRow>, owner: &str) -> (r: Vec<String>)
    requires
        distinct_label_rows(rows@),
    ensures
        strictly_ascending(texts(r@)),
        texts(r@).to_set() == labels_of_owner(rows@, owner@),
{
    let mut out: Vec<String> = Vec::new();
    let mut i: usize = 0;
    while i < rows.len()
        invariant
            i <= rows@.len(),
            distinct_label_rows(rows@),
            strictly_ascending(texts(out@)),
            texts(out@).to_set() == Set::new(
                |l: Seq<char>|
                    exists|j: int|
                        0 <= j < i && (#[trigger] rows@[j]).owner@ == owner@ && rows@[j].label@
                            == l,
            ),
        decreases rows@.len() - i,
    {
        if text_eq(rows[i].owner.as_str(), owner) {
            let ghost before = texts(out@);
            let label = rows[i].label.clone();
            assert(!before.contains(label@)) by {
                if before.contains(label@) {
                    assert(before.to_set().contains(label@));
                    let j = choose|j: int|
                        0 <= j < i && (#[trigger] rows@[j]).owner@ == owner@ && rows@[j].label@
                            == label@;
                }
            }
            insert_ascending(&mut out, label);
        }
        assert(texts(out@).to_set() =~= Set::new(
            |l: Seq<char>|
                exists|j: int|
                    0 <= j < i + 1 && (#[trigger] rows@[j]).owner@ == owner@ && rows@[j].label@
                        == l,
        ));
        i = i + 1;
    }
    assert(texts(out@).to_set() =~= labels_of_owner(rows@, owner@));
    out
}

/// Puts `s` in its place in a strictly ascending list that lacks it.
fn insert_ascending(v: &mut Vec<String>, s: String)
    requires
        strictly_ascending(texts(old(v)@)),
        !texts(old(v)@).contains(s@),
    ensures
        strictly_ascending(texts(final(v)@)),
        texts(final(v)@).to_set() == texts(old(v)@).to_set().insert(s@),
{
    let ghost old_t = texts(v@);
    let mut k: usize = 0;
    while k < v.len() && !text_le_exec(s.as_str(), v[k].as_str())
        invariant
            k <= v@.len(),
            texts(v@) == old_t,
            forall|j: int| 0 <= j < k ==> text_lt(#[trigger] old_t[j], s@),
        decreases v@.len() - k,
    {
        proof {
            lemma_text_le_total(s@, v@[k as int]@);
            assert(old_t[k as int] == v@[k as int]@);
            assert(old_t[k as int] != s@) by {
                assert(old_t.contains(old_t[k as int]));
            }
        }
        k = k + 1;
    }
    if k < v.len() {
        assert(text_le(s@, old_t[k as int]));
        assert(s@ != old_t[k as int]) by {
            assert(old_t.contains(old_t[k as int]));
        }
    }
    v.insert(k, s);
    let ghost new_t = texts(v@);
    assert(new_t =~= old_t.insert(k as int, s@));
    assert forall|i: int, j: int| 0 <= i < j < new_t.len() implies text_lt(
        #[trigger] new_t[i],
        #[trigger] new_t[j],
    ) by {
        if j < k {
            assert(text_lt(old_t[i], old_t[j]));
        } else if j == k {
        } else if i < k {
            assert(text_lt(old_t[i], old_t[j - 1]));
        } else if i == k {
            if j - 1 > k {
                assert(text_lt(old_t[k as int], old_t[j - 1]));
                lemma_text_le_transitive(s@, old_t[k as int], old_t[j - 1]);
                if s@ == old_t[j - 1] {
                    lemma_text_le_antisymmetric(s@, old_t[k as int]);
                }
            }
        } else {
            assert(text_lt(old_t[i - 1], old_t[j - 1]));
        }
    }
    assert(new_t.to_set() =~= old_t.to_set().insert(s@)) by {
        assert forall|x: Seq<char>| new_t.to_set().contains(x) implies old_t.to_set().insert(
            s@,
        ).contains(x) by {
            let m = choose|m: int| 0 <= m < new_t.len() && #[trigger] new_t[m] == x;
            if m < k {
                assert(old_t[m] == x);
            } else if m > k {
                assert(old_t[m - 1] == x);
            }
        }
        assert forall|x: Seq<char>| old_t.to_set().insert(s@).contains(x) implies new_t.to_set().contains(
            x,
        ) by {
            if x == s@ {
                assert(new_t[k as int] == x);
            } else {
                let m = choose|m: int| 0 <= m < old_t.len() && #[trigger] old_t[m] == x;
                if m < k {
                    assert(new_t[m] == x);
                } else {
                    assert(new_t[m + 1] == x);
                }
            }
        }
    }
}

/// Replaces the labels of the to-do `todo_id` by `labels` (once each).
/// Refused, with nothing changed, when labels are given for a to-do that
/// does not exist.
pub fn update_todo_labels(store: &mut Store, todo_id: &str, labels: &[String]) -> (r: Result<
    (),
    StoreError,
>)
    requires
        old(store).wf(),
    ensures
        final(store).wf(),
        final(store).todos == old(store).todos,
        final(store).journals == old(store).journals,
        final(store).journal_labels == old(store).journal_labels,
        final(store).segments == old(store).segments,
        final(store).settings == old(store).settings,
        final(store).migrations == old(store).migrations,
        r is Err <==> labels@.len() > 0 && !todo_ids(old(store).todos@).contains(todo_id@),
        r matches Err(e) ==> e == StoreError::MissingParent && final(store).todo_labels
            == old(store).todo_labels,
        r is Ok ==> label_set(final(store).todo_labels@) == relabelled(
            old(store).todo_labels@,
            todo_id@,
            texts(labels@),
        ),
{
    if labels.len() > 0 && crate::store::find_todo(&store.todos, todo_id).is_none() {
        return Err(StoreError::MissingParent);
    }
    let ghost old_rows = store.todo_labels@;
    replace_labels(&mut store.todo_labels, todo_id, labels);
    proof {
        let owners = todo_ids(store.todos@);
        assert forall|p: (Seq<char>, Seq<char>)| label_set(store.todo_labels@).contains(
            p,
        ) implies owners.contains(p.0) by {
            if p.0 == todo_id@ {
                let m = choose|m: int| 0 <= m < texts(labels@).len() && texts(labels@)[m] == p.1;
            } else {
                let j = choose|j: int|
                    0 <= j < old_rows.len() && (#[trigger] old_rows[j]).owner@ == p.0
                        && old_rows[j].label@ == p.1;
            }
        }
        lemma_owned_by_pairs(store.todo_labels@, owners);
    }
    Ok(())
}

/// The labels of the to-do `todo_id`, ascending, each once.
pub fn labels_for_todo(store: &Store, todo_id: &str) -> (r: Vec<String>)
    requires
        store.wf(),
    ensures
        strictly_ascending(texts(r@)),
        texts(r@).to_set() == labels_of_owner(store.todo_labels@, todo_id@),
{
    labels_for(&store.todo_labels, todo_id)
}

/// Replaces the labels of the journal entry `journal_id` by `labels` (once
/// each).  Refused, with nothing changed, when labels are given for an entry
/// that does not exist.
pub fn update_journal_labels(store: &mut Store, journal_id: &str, labels: &[String]) -> (r: Result<
    (),
    StoreError,
>)
    requires
        old(store).wf(),
    ensures
        final(store).wf(),
        final(store).todos == old(store).todos,
        final(store).todo_labels == old(store).todo_labels,
        final(store).journals == old(store).journals,
        final(store).segments == old(store).segments,
        final(store).settings == old(store).settings,
        final(store).migrations == old(store).migrations,
        r is Err <==> labels@.len() > 0 && !journal_ids(old(store).journals@).contains(
            journal_id@,
        ),
        r matches Err(e) ==> e == StoreError::MissingParent && final(store).journal_labels
            == old(store).journal_labels,
        r is Ok ==> label_set(final(store).journal_labels@) == relabelled(
            old(store).journal_labels@,
            journal_id@,
            texts(labels@),
        ),
{
    if labels.len() > 0 && crate::store::find_journal(&store.journals, journal_id).is_none() {
        return Err(StoreError::MissingParent);
    }
    let ghost old_rows = store.journal_labels@;
    replace_labels(&mut store.journal_labels, journal_id, labels);
    proof {
        let owners = journal_ids(store.journals@);
        assert forall|p: (Seq<char>, Seq<char>)| label_set(store.journal_labels@).contains(
            p,
        ) implies owners.contains(p.0) by {
            if p.0 == journal_id@ {
                let m = choose|m: int| 0 <= m < texts(labels@).len() && texts(labels@)[m] == p.1;
            } else {
                let j = choose|j: int|
                    0 <= j < old_rows.len() && (#[trigger] old_rows[j]).owner@ == p.0
                        && old_rows[j].label@ == p.1;
            }
        }
        lemma_owned_by_pairs(store.journal_labels@, owners);
    }
    Ok(())
}

/// The labels of the journal entry `journal_id`, ascending, each once.
pub fn labels_for_journal(store: &Store, journal_id: &str) -> (r: Vec<String>)
    requires
        store.wf(),
    ensures
        strictly_ascending(texts(r@)),
        texts(r@).to_set() == labels_of_owner(store.journal_labels@, journal_id@),
{
    labels_for(&store.journal_labels, journal_id)
}

/// Reading the labels of an owner after replacing them gives back exactly
/// the labels written, and the labels of every other owner are untouched.
pub proof fn lemma_read_after_relabel(
    old_rows: Seq<LabelRow>,
    new_rows: Seq<LabelRow>,
    owner: Seq<char>,
    labels: Seq<Seq<char>>,
    other: Seq<char>,
)
    requires
        label_set(new_rows) == relabelled(old_rows, owner, labels),
        other != owner,
    ensures
        labels_of_owner(new_rows, owner) == labels.to_set(),
        labels_of_owner(new_rows, other) == labels_of_owner(old_rows, other),
{
    assert(labels_of_owner(new_rows, owner) =~= labels.to_set());
    assert(labels_of_owner(new_rows, other) =~= labels_of_owner(old_rows, other));
}

} // verus!
