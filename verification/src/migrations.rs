//! Schema versions: which versions have been applied, and when.  The
//! versions are applied in order, each once.

use vstd::prelude::*;

use crate::store::{AppliedMigration, Store};
use crate::time::{in_range, iso_utc_millis};

verus! {

/// The schema versions, in the order they are applied.
pub open spec fn schema_versions() -> Seq<i64> {
    seq![1i64, 2i64, 3i64]
}

/// The latest schema version.
pub const LATEST_VERSION: i64 = 3;

/// Version `v` is recorded as applied.
pub open spec fn is_applied(rows: Seq<AppliedMigration>, v: i64) -> bool {
    exists|i: int| 0 <= i < rows.len() && #[trigger] rows[i].version == v
}

/// The versions among `versions` not yet applied, in order.
pub open spec fn missing_versions(rows: Seq<AppliedMigration>, versions: Seq<i64>) -> Seq<i64> {
    versions.filter(|v: i64| !is_applied(rows, v))
}

fn applied(rows: &Vec<AppliedMigration>, v: i64) -> (r: bool)
    ensures
        r == is_applied(rows@, v),
{
    let mut i: usize = 0;
    while i < rows.len()
        invariant
            i <= rows@.len(),
            forall|j: int| 0 <= j < i ==> (#[trigger] rows@[j]).version != v,
        decreases rows@.len() - i,
    {
        if rows[i].version == v {
            return true;
        }
        i = i + 1;
    }
    false
}

/// The store `s1` is `s0` with every schema version not yet applied
/// recorded, in order, as applied at `now`; nothing else changes.
pub open spec fn migrated(s0: Store, s1: Store, now: Seq<char>) -> bool {
    &&& s1.todos == s0.todos
    &&& s1.todo_labels == s0.todo_labels
    &&& s1.journals == s0.journals
    &&& s1.journal_labels == s0.journal_labels
    &&& s1.segments == s0.segments
    &&& s1.settings == s0.settings
    &&& s1.migrations@.subrange(0, s0.migrations@.len() as int) == s0.migrations@
    &&& s1.migrations@.len() == s0.migrations@.len() + missing_versions(
        s0.migrations@,
        schema_versions(),
    ).len()
    &&& forall|k: int|
        s0.migrations@.len() <= k < s1.migrations@.len() ==> (#[trigger] s1.migrations@[k]).version
            == missing_versions(s0.migrations@, schema_versions())[k - s0.migrations@.len()]
            && s1.migrations@[k].applied_at@ == now
    &&& forall|k: int| 0 <= k < 3 ==> is_applied(s1.migrations@, #[trigger] schema_versions()[k])
}

/// Applies, at `now`, every schema version not yet applied, in order, and
/// records each; answers the latest version.  Running it again applies
/// nothing.
pub fn run_migrations_at(store: &mut Store, now: &str) -> (last: i64)
    requires
        old(store).wf(),
    ensures
        final(store).wf(),
        last == LATEST_VERSION,
        migrated(*old(store), *final(store), now@),
{
    let ghost before = store.migrations@;
    let ghost pred = |v: i64| !is_applied(before, v);
    let versions: Vec<i64> = vec![1i64, 2i64, 3i64];
    assert(versions@ =~= schema_versions());
    let mut last: i64 = 0;
    let mut k: usize = 0;
    while k < versions.len()
        invariant
            k <= versions@.len(),
            versions@ == schema_versions(),
            pred == (|v: i64| !is_applied(before, v)),
            store.wf(),
            store.todos == old(store).todos,
            store.todo_labels == old(store).todo_labels,
            store.journals == old(store).journals,
            store.journal_labels == old(store).journal_labels,
            store.segments == old(store).segments,
            store.settings == old(store).settings,
            before == old(store).migrations@,
            store.migrations@.subrange(0, before.len() as int) == before,
            store.migrations@.len() == before.len() + versions@.subrange(0, k as int).filter(
                pred,
            ).len(),
            forall|m: int|
                before.len() <= m < store.migrations@.len() ==> (#[trigger] store.migrations@[m]).version
                    == versions@.subrange(0, k as int).filter(pred)[m - before.len()]
                    && store.migrations@[m].applied_at@ == now@,
            forall|m: int| 0 <= m < k ==> is_applied(store.migrations@, #[trigger] versions@[m]),
            forall|m: int| k <= m < 3 ==> is_applied(store.migrations@, #[trigger] versions@[m])
                == is_applied(before, versions@[m]),
            k > 0 ==> last == versions@[k - 1],
            k == 0 ==> last == 0,
        decreases versions@.len() - k,
    {
        let v = versions[k];
        let ghost rows = store.migrations@;
        assert(schema_versions()[0] == 1 && schema_versions()[1] == 2 && schema_versions()[2] == 3);
        proof {
            assert(versions@.subrange(0, k + 1) =~= versions@.subrange(0, k as int).push(v));
            versions@.subrange(0, k as int).lemma_filter_push(v, pred);
        }
        if applied(&store.migrations, v) {
            if v > last {
                last = v;
            }
            assert(is_applied(before, v));
        } else {
            assert(!is_applied(before, v));
            store.migrations.push(AppliedMigration { version: v, applied_at: now.to_owned() });
            proof {
                assert forall|i: int, j: int| 0 <= i < j < store.migrations@.len() implies #[trigger] store.migrations@[i].version
                    != #[trigger] store.migrations@[j].version by {
                    if j == rows.len() {
                        assert(rows[i] == store.migrations@[i]);
                    } else {
                        assert(rows[i] == store.migrations@[i]);
                        assert(rows[j] == store.migrations@[j]);
                    }
                }
                assert(store.migrations@.subrange(0, before.len() as int) =~= rows.subrange(
                    0,
                    before.len() as int,
                ));
                assert forall|m: int| 0 <= m < k + 1 implies is_applied(
                    store.migrations@,
                    #[trigger] versions@[m],
                ) by {
                    if m < k {
                        let i = choose|i: int| 0 <= i < rows.len() && #[trigger] rows[i].version == versions@[m];
                        assert(store.migrations@[i] == rows[i]);
                    } else {
                        assert(store.migrations@[rows.len() as int].version == v);
                    }
                }
                assert forall|m: int| k + 1 <= m < 3 implies is_applied(
                    store.migrations@,
                    #[trigger] versions@[m],
                ) == is_applied(before, versions@[m]) by {
                    if is_applied(store.migrations@, versions@[m]) {
                        let i = choose|i: int|
                            0 <= i < store.migrations@.len() && #[trigger] store.migrations@[i].version
                                == versions@[m];
                        if i < rows.len() {
                            assert(rows[i] == store.migrations@[i]);
                        }
                    }
                    if is_applied(rows, versions@[m]) {
                        let i = choose|i: int| 0 <= i < rows.len() && #[trigger] rows[i].version == versions@[m];
                        assert(store.migrations@[i] == rows[i]);
                    }
                }
            }
            last = v;
        }
        k = k + 1;
    }
    assert(versions@.subrange(0, 3) =~= versions@);
    last
}

/// Applies every schema version not yet applied, now, and records each as
/// applied at the present instant (see `migrated`).
pub fn run_migrations(store: &mut Store) -> (last: i64)
    requires
        old(store).wf(),
    ensures
        final(store).wf(),
        last == LATEST_VERSION,
        exists|ms: int| in_range(ms) && #[trigger] migrated(*old(store), *final(store), iso_utc_millis(ms)),
{
    let ms = crate::time::utc_now_millis();
    let now = crate::time::iso_utc_z_millis(ms);
    run_migrations_at(store, now.as_str())
}


/// Once every schema version is applied, none is missing: running the
/// migrations again records nothing more.
pub proof fn lemma_rerun_applies_nothing(rows: Seq<AppliedMigration>)
    requires
        forall|k: int| 0 <= k < 3 ==> is_applied(rows, #[trigger] schema_versions()[k]),
    ensures
        missing_versions(rows, schema_versions()).len() == 0,
{
    let pred = |v: i64| !is_applied(rows, v);
    assert(schema_versions().all(|v: i64| !pred(v))) by {
        assert forall|k: int| 0 <= k < schema_versions().len() implies (|v: i64| !pred(v))(
            #[trigger] schema_versions()[k],
        ) by {
            assert(is_applied(rows, schema_versions()[k]));
        }
    }
    schema_versions().lemma_all_neg_filter_empty(pred);
}

} // verus!
