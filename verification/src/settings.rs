//! Settings: a key-value table where each key is stored at most once, with
//! a default value for the keys the assistant knows.

use vstd::prelude::*;

use crate::store::{Setting, Store};
use crate::text::text_eq;

verus! {

/// The global shortcut that opens Quick Add.
pub const KEY_SHORTCUT: &'static str = "shortcut";

/// Seconds without input after which the user counts as idle.
pub const KEY_IDLE_THRESHOLD_SEC: &'static str = "idleThresholdSec";

/// The message of the last failed shortcut registration, empty when none.
pub const KEY_SHORTCUT_ERROR: &'static str = "shortcutError";

/// Segments shorter than this many seconds merge into the next window's.
pub const KEY_MIN_SEGMENT_SEC: &'static str = "minSegmentSec";

/// The value stored for `key`, if any.
pub open spec fn stored_value(rows: Seq<Setting>, key: Seq<char>) -> Option<Seq<char>> {
    if exists|i: int| 0 <= i < rows.len() && (#[trigger] rows[i]).key@ == key {
        let i = choose|i: int| 0 <= i < rows.len() && (#[trigger] rows[i]).key@ == key;
        Some(rows[i].value@)
    } else {
        None
    }
}

/// No key is stored twice.
pub open spec fn distinct_keys(rows: Seq<Setting>) -> bool {
    forall|i: int, j: int|
        0 <= i < j < rows.len() ==> #[trigger] rows[i].key@ != #[trigger] rows[j].key@
}

/// The value of `key`: the stored one, else its default.
pub open spec fn setting_or_default(rows: Seq<Setting>, key: Seq<char>) -> Seq<char> {
    match stored_value(rows, key) {
        Some(v) => v,
        None => default_value(key),
    }
}

/// The default of a setting: the Quick Add shortcut is `Ctrl+Shift+Space`,
/// the idle threshold 300 seconds; every other key defaults to empty.
pub open spec fn default_value(key: Seq<char>) -> Seq<char> {
    if key == "shortcut"@ {
        "Ctrl+Shift+Space"@
    } else if key == "idleThresholdSec"@ {
        "300"@
    } else {
        Seq::empty()
    }
}

proof fn lemma_stored_value_at(rows: Seq<Setting>, i: int)
    requires
        distinct_keys(rows),
        0 <= i < rows.len(),
    ensures
        stored_value(rows, rows[i].key@) == Some(rows[i].value@),
{
    let k = rows[i].key@;
    assert(exists|j: int| 0 <= j < rows.len() && (#[trigger] rows[j]).key@ == k);
    let j = choose|j: int| 0 <= j < rows.len() && (#[trigger] rows[j]).key@ == k;
    if j != i {
        if j < i {
            assert(rows[j].key@ != rows[i].key@);
        } else {
            assert(rows[i].key@ != rows[j].key@);
        }
    }
}

fn find_setting(rows: &Vec<Setting>, key: &str) -> (r: Option<usize>)
    ensures
        match r {
            Some(i) => i < rows@.len() && rows@[i as int].key@ == key@,
            None => forall|j: int| 0 <= j < rows@.len() ==> (#[trigger] rows@[j]).key@ != key@,
        },
{
    let mut i: usize = 0;
    while i < rows.len()
        invariant
            i <= rows@.len(),
            forall|j: int| 0 <= j < i ==> (#[trigger] rows@[j]).key@ != key@,
        decreases rows@.len() - i,
    {
        if text_eq(rows[i].key.as_str(), key) {
            return Some(i);
        }
        i = i + 1;
    }
    None
}

/// The default value of a setting.
pub fn default_for(key: &str) -> (r: String)
    ensures
        r@ == default_value(key@),
{
    if text_eq(key, "shortcut") {
        "Ctrl+Shift+Space".to_owned()
    } else if text_eq(key, "idleThresholdSec") {
        "300".to_owned()
    } else {
        String::new()
    }
}

/// The value stored for `key`, if any.
pub fn get(store: &Store, key: &str) -> (r: Option<String>)
    requires
        store.wf(),
    ensures
        r.deep_view() == stored_value(store.settings@, key@),
{
    match find_setting(&store.settings, key) {
        Some(i) => {
            proof {
                lemma_stored_value_at(store.settings@, i as int);
            }
            Some(store.settings[i].value.clone())
        },
        None => None,
    }
}

/// Stores `value` under `key`, replacing what was there.
pub fn set(store: &mut Store, key: &str, value: &str)
    requires
        old(store).wf(),
    ensures
        final(store).wf(),
        final(store).todos == old(store).todos,
        final(store).todo_labels == old(store).todo_labels,
        final(store).journals == old(store).journals,
        final(store).journal_labels == old(store).journal_labels,
        final(store).segments == old(store).segments,
        final(store).migrations == old(store).migrations,
        forall|k: Seq<char>|
            #[trigger] stored_value(final(store).settings@, k) == if k == key@ {
                Some(value@)
            } else {
                stored_value(old(store).settings@, k)
            },
{
    let ghost before = store.settings@;
    let row = Setting { key: key.to_owned(), value: value.to_owned() };
    match find_setting(&store.settings, key) {
        Some(i) => {
            store.settings.set(i, row);
            let ghost after = store.settings@;
            assert forall|a: int, b: int| 0 <= a < b < after.len() implies #[trigger] after[a].key@
                != #[trigger] after[b].key@ by {
                assert(before[a].key@ != before[b].key@);
            }
            assert forall|k: Seq<char>| #[trigger] stored_value(after, k) == if k == key@ {
                Some(value@)
            } else {
                stored_value(before, k)
            } by {
                if k == key@ {
                    lemma_stored_value_at(after, i as int);
                } else if exists|j: int| 0 <= j < before.len() && (#[trigger] before[j]).key@ == k {
                    let j = choose|j: int| 0 <= j < before.len() && (#[trigger] before[j]).key@ == k;
                    lemma_stored_value_at(before, j);
                    lemma_stored_value_at(after, j);
                } else {
                    assert(!exists|j: int| 0 <= j < after.len() && (#[trigger] after[j]).key@ == k)
                        by {
                        if exists|j: int| 0 <= j < after.len() && (#[trigger] after[j]).key@ == k {
                            let j = choose|j: int|
                                0 <= j < after.len() && (#[trigger] after[j]).key@ == k;
                            assert(before[j].key@ == k);
                        }
                    }
                }
            }
        },
        None => {
            store.settings.push(row);
            let ghost after = store.settings@;
            assert forall|a: int, b: int| 0 <= a < b < after.len() implies #[trigger] after[a].key@
                != #[trigger] after[b].key@ by {
                if b < before.len() {
                    assert(before[a].key@ != before[b].key@);
                }
            }
            assert forall|k: Seq<char>| #[trigger] stored_value(after, k) == if k == key@ {
                Some(value@)
            } else {
                stored_value(before, k)
            } by {
                if k == key@ {
                    lemma_stored_value_at(after, before.len() as int);
                } else if exists|j: int| 0 <= j < before.len() && (#[trigger] before[j]).key@ == k {
                    let j = choose|j: int| 0 <= j < before.len() && (#[trigger] before[j]).key@ == k;
                    lemma_stored_value_at(before, j);
                    lemma_stored_value_at(after, j);
                } else {
                    assert(!exists|j: int| 0 <= j < after.len() && (#[trigger] after[j]).key@ == k)
                        by {
                        if exists|j: int| 0 <= j < after.len() && (#[trigger] after[j]).key@ == k {
                            let j = choose|j: int|
                                0 <= j < after.len() && (#[trigger] after[j]).key@ == k;
                            assert(before[j].key@ == k);
                        }
                    }
                }
            }
        },
    }
}

/// The value stored for `key`, or its default.
pub fn get_with_default(store: &Store, key: &str) -> (r: String)
    requires
        store.wf(),
    ensures
        r@ == setting_or_default(store.settings@, key@),
{
    match get(store, key) {
        Some(v) => v,
        None => default_for(key),
    }
}

/// Every stored setting as a (key, value) pair, in table order.
pub fn get_all(store: &Store) -> (r: Vec<(String, String)>)
    ensures
        r@.len() == store.settings@.len(),
        forall|i: int|
            0 <= i < r@.len() ==> (#[trigger] r@[i]).0@ == store.settings@[i].key@ && r@[i].1@
                == store.settings@[i].value@,
{
    let mut out: Vec<(String, String)> = Vec::new();
    let mut i: usize = 0;
    while i < store.settings.len()
        invariant
            i <= store.settings@.len(),
            out@.len() == i,
            forall|j: int|
                0 <= j < i ==> (#[trigger] out@[j]).0@ == store.settings@[j].key@ && out@[j].1@
                    == store.settings@[j].value@,
        decreases store.settings@.len() - i,
    {
        out.push((store.settings[i].key.clone(), store.settings[i].value.clone()));
        i = i + 1;
    }
    out
}

/// A value read back after it was set is the value set; setting one key
/// changes no other key.
pub proof fn lemma_read_after_set(
    before: Seq<Setting>,
    after: Seq<Setting>,
    key: Seq<char>,
    value: Seq<char>,
    other: Seq<char>,
)
    requires
        forall|k: Seq<char>|
            #[trigger] stored_value(after, k) == if k == key {
                Some(value)
            } else {
                stored_value(before, k)
            },
        other != key,
    ensures
        stored_value(after, key) == Some(value),
        stored_value(after, other) == stored_value(before, other),
{
    assert(stored_value(after, key) == Some(value));
    assert(stored_value(after, other) == stored_value(before, other));
}

} // verus!
