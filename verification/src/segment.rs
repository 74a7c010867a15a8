//! Activity segments: stretches of time spent in one foreground window, or
//! idle.  At most one segment is open (has no end) at a time while tracking.

use vstd::prelude::*;

use crate::labels_store::texts;
use crate::order::{
    lemma_text_le_total, lemma_text_le_transitive, sort_rows, sorted_rows, text_le, text_le_exec,
    text_lt, RowOrder,
};
use crate::settings::{get_with_default, setting_or_default, KEY_MIN_SEGMENT_SEC};
use crate::store::{find_segment, is_uuid_v4_text, refers_to_todo, todo_ids, Store, StoreError};
use crate::text::{clone_opt_string, text_eq};
use crate::todos::Todo;
use crate::time::{
    clip, day_bounds, in_range, iso_utc_millis, parse_decimal, parse_iso_to_ms, parse_u64, parse_ymd,
    rfc3339_millis, slice_segment, unreadable, DayBounds, DAY_MS,
};

verus! {

/// What a segment records: work in a window, or absence.
#[derive(Debug, Clone, Copy, PartialEq, Eq, Structural)]
pub enum SegmentKind {
    Activity,
    Idle,
}

/// One segment of the activity log.  Times are ISO strings.
#[derive(Debug)]
pub struct Segment {
    pub id: String,
    pub start_at: String,
    pub end_at: Option<String>,
    pub process_name: String,
    pub title: String,
    pub note: String,
    pub todo_id: Option<String>,
    pub kind: SegmentKind,
}

/// The value of a segment.
pub struct SegmentView {
    pub id: Seq<char>,
    pub start_at: Seq<char>,
    pub end_at: Option<Seq<char>>,
    pub process_name: Seq<char>,
    pub title: Seq<char>,
    pub note: Seq<char>,
    pub todo_id: Option<Seq<char>>,
    pub kind: SegmentKind,
}

impl View for Segment {
    type V = SegmentView;

    open spec fn view(&self) -> SegmentView {
        SegmentView {
            id: self.id@,
            start_at: self.start_at@,
            end_at: self.end_at.deep_view(),
            process_name: self.process_name@,
            title: self.title@,
            note: self.note@,
            todo_id: self.todo_id.deep_view(),
            kind: self.kind,
        }
    }
}

impl Clone for Segment {
    fn clone(&self) -> (r: Segment)
        ensures
            r == *self,
            r@ == self@,
    {
        Segment {
            id: self.id.clone(),
            start_at: self.start_at.clone(),
            end_at: clone_opt_string(&self.end_at),
            process_name: self.process_name.clone(),
            title: self.title.clone(),
            note: self.note.clone(),
            todo_id: clone_opt_string(&self.todo_id),
            kind: self.kind,
        }
    }
}


/// The text a kind is stored as.
pub open spec fn kind_text(k: SegmentKind) -> Seq<char> {
    match k {
        SegmentKind::Activity => "activity"@,
        SegmentKind::Idle => "idle"@,
    }
}

impl SegmentKind {
    /// The text the kind is stored as: `activity` or `idle`.
    pub fn as_db_str(self) -> (s: &'static str)
        ensures
            s@ == kind_text(self),
    {
        match self {
            SegmentKind::Activity => "activity",
            SegmentKind::Idle => "idle",
        }
    }
}

/// The kind a stored text names: `idle` is idle, anything else activity.
pub fn kind_from_db_str(s: &str) -> (k: SegmentKind)
    ensures
        k == if s@ == "idle"@ {
            SegmentKind::Idle
        } else {
            SegmentKind::Activity
        },
{
    if text_eq(s, "idle") {
        SegmentKind::Idle
    } else {
        SegmentKind::Activity
    }
}

/// What a new segment is made of; the kind defaults to activity and the
/// start to now.
pub struct OpenSegmentInput {
    pub process_name: String,
    pub title: String,
    pub kind: Option<SegmentKind>,
    pub todo_id: Option<String>,
    pub start_at: Option<String>,
}

/// What an edit of a segment changes.  `todo_id`: `None` keeps it,
/// `Some(None)` clears it, `Some(Some(t))` links the to-do `t`.
pub struct SegmentPatch {
    pub note: Option<String>,
    pub todo_id: Option<Option<String>>,
}

/// The to-do link an edit asks for when it names one: none for a missing
/// or empty id, else the id.
pub fn patch_todo_id(v: Option<String>) -> (r: Option<Option<String>>)
    ensures
        r matches Some(t) && t.deep_view() == match v {
            Some(s) => if s@.len() == 0 {
                None
            } else {
                Some(s@)
            },
            None => None,
        },
{
    match v {
        None => Some(None),
        Some(s) => if s.as_str().unicode_len() == 0 {
            Some(None)
        } else {
            Some(Some(s))
        },
    }
}

/// A segment without an end.
pub open spec fn is_open(s: Segment) -> bool {
    s.end_at.deep_view() is None
}

/// How many segments are open.
pub open spec fn open_count(segs: Seq<Segment>) -> nat {
    segs.filter(|s: Segment| is_open(s)).len()
}

/// No two segments are open.
pub open spec fn at_most_one_open(segs: Seq<Segment>) -> bool {
    forall|i: int, j: int|
        0 <= i < segs.len() && 0 <= j < segs.len() && is_open(#[trigger] segs[i]) && is_open(
            #[trigger] segs[j],
        ) ==> i == j
}

/// The tables other than the segments are as they were.
pub open spec fn segments_others_kept(before: Store, after: Store) -> bool {
    &&& after.todos == before.todos
    &&& after.todo_labels == before.todo_labels
    &&& after.journals == before.journals
    &&& after.journal_labels == before.journal_labels
    &&& after.settings == before.settings
    &&& after.migrations == before.migrations
}

/// Some segment has id `id`.
pub open spec fn has_segment(segs: Seq<Segment>, id: Seq<char>) -> bool {
    exists|j: int| 0 <= j < segs.len() && #[trigger] segs[j].id@ == id
}

/// When a new segment starts: the start given, else `now`.
pub open spec fn start_of(input: &OpenSegmentInput, now: Seq<char>) -> Seq<char> {
    match input.start_at {
        Some(s) => s@,
        None => now,
    }
}

/// A new open segment with no note.
pub open spec fn new_segment(id: Seq<char>, start: Seq<char>, input: &OpenSegmentInput) -> SegmentView {
    SegmentView {
        id: id,
        start_at: start,
        end_at: None,
        process_name: input.process_name@,
        title: input.title@,
        note: Seq::empty(),
        todo_id: input.todo_id.deep_view(),
        kind: match input.kind {
            Some(k) => k,
            None => SegmentKind::Activity,
        },
    }
}

/// Segment rows rewritten one for one, keeping ids and to-do links, keep
/// the tables well formed.
proof fn lemma_wf_segments_rewritten(before: Store, after: Store)
    requires
        before.wf(),
        after.segments@.len() == before.segments@.len(),
        forall|i: int|
            0 <= i < after.segments@.len() ==> (#[trigger] after.segments@[i]).id@
                == before.segments@[i].id@ && after.segments@[i].todo_id.deep_view()
                == before.segments@[i].todo_id.deep_view(),
        segments_others_kept(before, after),
    ensures
        after.wf(),
{
    assert forall|i: int, j: int| 0 <= i < j < after.segments@.len() implies #[trigger] after.segments@[i].id@
        != #[trigger] after.segments@[j].id@ by {
        assert(before.segments@[i].id@ != before.segments@[j].id@);
    }
    assert forall|i: int| 0 <= i < after.segments@.len() implies refers_to_todo(
        (#[trigger] after.segments@[i]).todo_id.deep_view(),
        todo_ids(after.todos@),
    ) by {
        assert(refers_to_todo(before.segments@[i].todo_id.deep_view(), todo_ids(before.todos@)));
    }
}

/// Adds an open segment with id `id`, starting at the start given or `now`.
/// Refused, with nothing changed, when the id is taken or the to-do it names
/// does not exist.
pub fn open_segment_at(store: &mut Store, id: &str, now: &str, input: &OpenSegmentInput) -> (r: Result<
    Segment,
    StoreError,
>)
    requires
        old(store).wf(),
    ensures
        final(store).wf(),
        r is Err ==> *final(store) == *old(store),
        has_segment(old(store).segments@, id@) ==> r == Err::<Segment, StoreError>(
            StoreError::DuplicateKey,
        ),
        !has_segment(old(store).segments@, id@) && !refers_to_todo(
            input.todo_id.deep_view(),
            todo_ids(old(store).todos@),
        ) ==> r == Err::<Segment, StoreError>(StoreError::MissingParent),
        r matches Ok(seg) ==> {
            &&& !has_segment(old(store).segments@, id@)
            &&& seg@ == new_segment(id@, start_of(input, now@), input)
            &&& final(store).segments@ == old(store).segments@.push(seg)
            &&& segments_others_kept(*old(store), *final(store))
        },
        !has_segment(old(store).segments@, id@) && refers_to_todo(
            input.todo_id.deep_view(),
            todo_ids(old(store).todos@),
        ) ==> r is Ok,
{
    if find_segment(&store.segments, id).is_some() {
        return Err(StoreError::DuplicateKey);
    }
    match &input.todo_id {
        Some(t) => {
            if find_todo_ref(store, t.as_str()).is_none() {
                return Err(StoreError::MissingParent);
            }
        },
        None => {},
    }
    let ghost before = *store;
    let seg = Segment {
        id: id.to_owned(),
        start_at: match &input.start_at {
            Some(s) => s.clone(),
            None => now.to_owned(),
        },
        end_at: None,
        process_name: input.process_name.clone(),
        title: input.title.clone(),
        note: String::new(),
        todo_id: clone_opt_string(&input.todo_id),
        kind: match input.kind {
            Some(k) => k,
            None => SegmentKind::Activity,
        },
    };
    store.segments.push(seg.clone());
    proof {
        let n = before.segments@.len() as int;
        assert forall|i: int, j: int| 0 <= i < j < store.segments@.len() implies #[trigger] store.segments@[i].id@
            != #[trigger] store.segments@[j].id@ by {
            assert(store.segments@[i] == before.segments@[i]);
            if j == n {
                assert(has_segment(before.segments@, before.segments@[i].id@));
            } else {
                assert(store.segments@[j] == before.segments@[j]);
            }
        }
        assert forall|i: int| 0 <= i < store.segments@.len() implies refers_to_todo(
            (#[trigger] store.segments@[i]).todo_id.deep_view(),
            todo_ids(store.todos@),
        ) by {
            if i < n {
                assert(store.segments@[i] == before.segments@[i]);
            }
        }
    }
    Ok(seg)
}

fn find_todo_ref(store: &Store, id: &str) -> (r: Option<usize>)
    ensures
        r is None <==> !todo_ids(store.todos@).contains(id@),
{
    crate::store::find_todo(&store.todos, id)
}

/// Adds an open segment with a fresh random id, starting at the start given
/// or now (see `open_segment_at`).
pub fn open_segment(store: &mut Store, input: &OpenSegmentInput) -> (r: Result<Segment, StoreError>)
    requires
        old(store).wf(),
    ensures
        final(store).wf(),
        r is Err ==> *final(store) == *old(store),
        !refers_to_todo(input.todo_id.deep_view(), todo_ids(old(store).todos@)) ==> r is Err,
        r matches Err(e) ==> e == StoreError::MissingParent || e == StoreError::DuplicateKey,
        r matches Ok(seg) ==> {
            &&& crate::store::is_uuid_v4_text(seg@.id)
            &&& !has_segment(old(store).segments@, seg@.id)
            &&& exists|ms: int|
                in_range(ms) && seg@ == new_segment(
                    seg@.id,
                    start_of(input, crate::time::iso_utc_millis(ms)),
                    input,
                )
            &&& final(store).segments@ == old(store).segments@.push(seg)
            &&& segments_others_kept(*old(store), *final(store))
        },
{
    let id = crate::store::new_uuid();
    let ms = crate::time::utc_now_millis();
    let now = crate::time::iso_utc_z_millis(ms);
    open_segment_at(store, id.as_str(), now.as_str(), input)
}

/// A segment ended at `at`.
pub open spec fn ended_at(s: SegmentView, at: Seq<char>) -> SegmentView {
    SegmentView { end_at: Some(at), ..s }
}

/// A segment after every open one is ended at `at`.
pub open spec fn after_close(s: Segment, at: Seq<char>) -> SegmentView {
    if is_open(s) {
        ended_at(s@, at)
    } else {
        s@
    }
}

/// Ends every open segment at `at` and answers how many there were (so a
/// second call answers 0).
pub fn close_open(store: &mut Store, at: &str) -> (n: i64)
    requires
        old(store).wf(),
    ensures
        final(store).wf(),
        segments_others_kept(*old(store), *final(store)),
        final(store).segments@.len() == old(store).segments@.len(),
        forall|i: int|
            0 <= i < final(store).segments@.len() ==> (#[trigger] final(store).segments@[i])@
                == after_close(old(store).segments@[i], at@),
        open_count(old(store).segments@) <= i64::MAX ==> n == open_count(old(store).segments@),
        open_count(final(store).segments@) == 0,
{
    let ghost before = *store;
    let ghost segs = store.segments@;
    let ghost pred = |s: Segment| is_open(s);
    let mut out: Vec<Segment> = Vec::new();
    let mut n: usize = 0;
    let mut i: usize = 0;
    while i < store.segments.len()
        invariant
            i <= segs.len(),
            n <= i,
            segs == store.segments@,
            *store == before,
            pred == (|s: Segment| is_open(s)),
            out@.len() == i,
            forall|k: int| 0 <= k < i ==> (#[trigger] out@[k])@ == after_close(segs[k], at@),
            n == segs.subrange(0, i as int).filter(pred).len(),
            out@.filter(pred).len() == 0,
        decreases segs.len() - i,
    {
        proof {
            let prefix = segs.subrange(0, i as int);
            assert(segs.subrange(0, i + 1) =~= prefix.push(segs[i as int]));
            prefix.lemma_filter_len_push(pred, segs[i as int]);
            prefix.lemma_filter_len(pred);
        }
        let s = &store.segments[i];
        let ghost before_out = out@;
        if s.end_at.is_none() {
            out.push(Segment {
                id: s.id.clone(),
                start_at: s.start_at.clone(),
                end_at: Some(at.to_owned()),
                process_name: s.process_name.clone(),
                title: s.title.clone(),
                note: s.note.clone(),
                todo_id: clone_opt_string(&s.todo_id),
                kind: s.kind,
            });
            n = n + 1;
        } else {
            out.push(s.clone());
        }
        proof {
            before_out.lemma_filter_len_push(pred, out@[i as int]);
            assert(out@ =~= before_out.push(out@[i as int]));
        }
        i = i + 1;
    }
    assert(segs.subrange(0, i as int) =~= segs);
    store.segments = out;
    proof {
        lemma_wf_segments_rewritten(before, *store);
    }
    n as i64
}

/// The segment rows after every open one is ended at `at` (see
/// `close_open`); the notifier is stopped by its owner.
pub fn stop_tracking(store: &mut Store, at: &str)
    requires
        old(store).wf(),
    ensures
        final(store).wf(),
        segments_others_kept(*old(store), *final(store)),
        final(store).segments@.len() == old(store).segments@.len(),
        forall|i: int|
            0 <= i < final(store).segments@.len() ==> (#[trigger] final(store).segments@[i])@
                == after_close(old(store).segments@[i], at@),
{
    let _ = close_open(store, at);
}

/// `s` is open and starts no later than any other open segment.
pub open spec fn earliest_open(segs: Seq<Segment>, i: int) -> bool {
    &&& 0 <= i < segs.len()
    &&& is_open(segs[i])
    &&& forall|j: int|
        0 <= j < segs.len() && is_open(#[trigger] segs[j]) ==> text_le(segs[i].start_at@, segs[j].start_at@)
}

/// The open segment that started first, if any segment is open.
pub fn get_open_segment(store: &Store) -> (r: Option<Segment>)
    ensures
        r is None <==> forall|j: int| 0 <= j < store.segments@.len() ==> !is_open(#[trigger] store.segments@[j]),
        r matches Some(s) ==> exists|i: int| earliest_open(store.segments@, i) && #[trigger] store.segments@[i] == s,
{
    let ghost segs = store.segments@;
    let mut best: Option<usize> = None;
    let mut i: usize = 0;
    while i < store.segments.len()
        invariant
            i <= segs.len(),
            segs == store.segments@,
            match best {
                None => forall|j: int| 0 <= j < i ==> !is_open(#[trigger] segs[j]),
                Some(b) => b < i && is_open(segs[b as int]) && forall|j: int|
                    0 <= j < i && is_open(#[trigger] segs[j]) ==> text_le(
                        segs[b as int].start_at@,
                        segs[j].start_at@,
                    ),
            },
        decreases segs.len() - i,
    {
        let s = &store.segments[i];
        if s.end_at.is_none() {
            match best {
                None => {
                    best = Some(i);
                    proof {
                        crate::order::lemma_text_le_reflexive(segs[i as int].start_at@);
                    }
                },
                Some(b) => {
                    if !text_le_exec(store.segments[b].start_at.as_str(), s.start_at.as_str()) {
                        proof {
                            lemma_text_le_total(segs[b as int].start_at@, segs[i as int].start_at@);
                            assert forall|j: int| 0 <= j < i + 1 && is_open(#[trigger] segs[j]) implies text_le(
                                segs[i as int].start_at@,
                                segs[j].start_at@,
                            ) by {
                                if j < i {
                                    lemma_text_le_transitive(
                                        segs[i as int].start_at@,
                                        segs[b as int].start_at@,
                                        segs[j].start_at@,
                                    );
                                } else {
                                    crate::order::lemma_text_le_reflexive(segs[i as int].start_at@);
                                }
                            }
                        }
                        best = Some(i);
                    }
                },
            }
        }
        i = i + 1;
    }
    match best {
        None => None,
        Some(b) => {
            let s = store.segments[b].clone();
            assert(earliest_open(segs, b as int));
            assert(store.segments@[b as int] == s);
            Some(s)
        },
    }
}

/// A segment after every open one is moved to another window.
pub open spec fn after_rename(s: Segment, process: Seq<char>, title: Seq<char>) -> SegmentView {
    if is_open(s) {
        SegmentView { process_name: process, title: title, ..s@ }
    } else {
        s@
    }
}

/// Moves every open segment to the window `process_name` / `title`, keeping
/// its start, kind, note and to-do link: a segment too short to keep on its
/// own is merged into the next window's.
pub fn replace_open_process_title(store: &mut Store, process_name: &str, title: &str)
    requires
        old(store).wf(),
    ensures
        final(store).wf(),
        segments_others_kept(*old(store), *final(store)),
        final(store).segments@.len() == old(store).segments@.len(),
        forall|i: int|
            0 <= i < final(store).segments@.len() ==> (#[trigger] final(store).segments@[i])@
                == after_rename(old(store).segments@[i], process_name@, title@),
{
    let ghost before = *store;
    let ghost segs = store.segments@;
    let mut out: Vec<Segment> = Vec::new();
    let mut i: usize = 0;
    while i < store.segments.len()
        invariant
            i <= segs.len(),
            segs == store.segments@,
            *store == before,
            out@.len() == i,
            forall|k: int|
                0 <= k < i ==> (#[trigger] out@[k])@ == after_rename(segs[k], process_name@, title@),
        decreases segs.len() - i,
    {
        let s = &store.segments[i];
        if s.end_at.is_none() {
            out.push(Segment {
                id: s.id.clone(),
                start_at: s.start_at.clone(),
                end_at: None,
                process_name: process_name.to_owned(),
                title: title.to_owned(),
                note: s.note.clone(),
                todo_id: clone_opt_string(&s.todo_id),
                kind: s.kind,
            });
        } else {
            out.push(s.clone());
        }
        i = i + 1;
    }
    store.segments = out;
    proof {
        lemma_wf_segments_rewritten(before, *store);
    }
}

/// `x` clamped to the range of `i64`.
pub open spec fn clamp_i64(x: int) -> int {
    if x < i64::MIN {
        i64::MIN as int
    } else if x > i64::MAX {
        i64::MAX as int
    } else {
        x
    }
}

/// Milliseconds from `start` to `now` (differences past `i64` saturate), and
/// none when `now` is earlier.
pub open spec fn elapsed_ms(start: int, now: int) -> int {
    if clamp_i64(now - start) > 0 {
        clamp_i64(now - start)
    } else {
        0
    }
}

/// The merge limit in milliseconds, saturating at `u64::MAX`.
pub open spec fn merge_limit_ms(threshold_sec: int) -> int {
    if threshold_sec * 1000 > u64::MAX {
        u64::MAX as int
    } else {
        threshold_sec * 1000
    }
}

/// The open segment is merged into the next window when merging is on (a
/// positive threshold), it is an activity, both instants are known, and it
/// has lasted less than the threshold.
pub open spec fn merge_rule(
    open_kind: Option<SegmentKind>,
    start_ms: Option<int>,
    now_ms: Option<int>,
    threshold_sec: int,
) -> bool {
    &&& threshold_sec > 0
    &&& open_kind == Some(SegmentKind::Activity)
    &&& match (start_ms, now_ms) {
        (Some(a), Some(b)) => elapsed_ms(a, b) < merge_limit_ms(threshold_sec),
        _ => false,
    }
}

fn opt_ms(x: Option<i64>) -> (r: Option<i64>)
    ensures
        r == x,
{
    x
}

/// Whether an open segment of kind `open_kind` that started at `start_ms`
/// is merged into the window that comes at `now_ms` (see `merge_rule`).
pub fn merge_decision(
    open_kind: Option<SegmentKind>,
    start_ms: Option<i64>,
    now_ms: Option<i64>,
    threshold_sec: u64,
) -> (r: bool)
    ensures
        r == merge_rule(
            open_kind,
            match start_ms {
                Some(a) => Some(a as int),
                None => None,
            },
            match now_ms {
                Some(b) => Some(b as int),
                None => None,
            },
            threshold_sec as int,
        ),
{
    if threshold_sec == 0 {
        return false;
    }
    match open_kind {
        Some(SegmentKind::Activity) => {},
        _ => {
            return false;
        },
    }
    match (opt_ms(start_ms), opt_ms(now_ms)) {
        (Some(a), Some(b)) => {
            let d: i128 = b as i128 - a as i128;
            let sat: i128 = if d < i64::MIN as i128 {
                i64::MIN as i128
            } else if d > i64::MAX as i128 {
                i64::MAX as i128
            } else {
                d
            };
            let elapsed: u128 = if sat > 0 {
                sat as u128
            } else {
                0
            };
            let wanted: u128 = threshold_sec as u128 * 1000;
            let limit: u128 = if wanted > u64::MAX as u128 {
                u64::MAX as u128
            } else {
                wanted
            };
            elapsed < limit
        },
        _ => false,
    }
}

/// `merge` is a decision that `should_merge_open` can give for the
/// store `store`, the time text `now` and the threshold `threshold_sec`:
/// never with no threshold, no open segment, or a time that cannot be read,
/// only into an activity segment, and by `merge_rule` where both times are
/// RFC 3339 strings.
/// Naive local times are read in the machine's time zone.
pub open spec fn merge_decided(store: Store, now: Seq<char>, threshold_sec: int, merge: bool) -> bool {
    &&& threshold_sec == 0 ==> !merge
    &&& (forall|j: int| 0 <= j < store.segments@.len() ==> !is_open(#[trigger] store.segments@[j]))
        ==> !merge
    &&& unreadable(now) ==> !merge
    &&& (forall|i: int|
        earliest_open(store.segments@, i) ==> unreadable(#[trigger] store.segments@[i].start_at@))
        ==> !merge
    &&& merge ==> exists|i: int|
        earliest_open(store.segments@, i) && (#[trigger] store.segments@[i]).kind
            == SegmentKind::Activity
    &&& forall|i: int|
        earliest_open(store.segments@, i) && (forall|j: int|
            earliest_open(store.segments@, j) ==> j == i) ==> match (
            rfc3339_millis(#[trigger] store.segments@[i].start_at@),
            rfc3339_millis(now),
        ) {
            (Some(a), Some(b)) => merge == merge_rule(
                Some(store.segments@[i].kind),
                Some(a),
                Some(b),
                threshold_sec,
            ),
            _ => true,
        }
}

/// Whether the open segment that started first is merged into the window
/// that comes at `now` (the time text) with the threshold `threshold_sec`.
/// Both times are read with `parse_iso_to_ms`: RFC 3339 times as they say,
/// naive ones in the local time zone, which chrono decides.
pub fn should_merge_open(store: &Store, now: &str, threshold_sec: u64) -> (r: bool)
    ensures
        merge_decided(*store, now@, threshold_sec as int, r),
{
    if threshold_sec == 0 {
        return false;
    }
    let seg = match get_open_segment(store) {
        Some(s) => s,
        None => {
            return false;
        },
    };
    proof {
        let k = choose|i: int| earliest_open(store.segments@, i) && store.segments@[i] == seg;
        assert forall|i: int|
            earliest_open(store.segments@, i) && (forall|j: int|
                earliest_open(store.segments@, j) ==> j == i) implies i == k by {
            assert(earliest_open(store.segments@, k));
        }
    }
    let start_ms = parse_iso_to_ms(seg.start_at.as_str());
    let now_ms = parse_iso_to_ms(now);
    merge_decision(Some(seg.kind), start_ms, now_ms, threshold_sec)
}

/// The order of segment lists: by start time, earliest first.
pub struct SegmentOrder;

impl RowOrder<Segment> for SegmentOrder {
    open spec fn before(a: Segment, b: Segment) -> bool {
        text_le(a.start_at@, b.start_at@)
    }

    proof fn lemma_total(a: Segment, b: Segment) {
        lemma_text_le_total(a.start_at@, b.start_at@);
    }

    proof fn lemma_transitive(a: Segment, b: Segment, c: Segment) {
        lemma_text_le_transitive(a.start_at@, b.start_at@, c.start_at@);
    }

    fn le(a: &Segment, b: &Segment) -> (r: bool) {
        text_le_exec(a.start_at.as_str(), b.start_at.as_str())
    }
}

/// Every segment, earliest start first.
pub fn list_all(store: &Store) -> (r: Vec<Segment>)
    ensures
        sorted_rows::<Segment, SegmentOrder>(r@),
        r@.to_multiset() =~= store.segments@.to_multiset(),
{
    let mut copy: Vec<Segment> = Vec::new();
    let mut i: usize = 0;
    while i < store.segments.len()
        invariant
            i <= store.segments@.len(),
            copy@ == store.segments@.subrange(0, i as int),
        decreases store.segments@.len() - i,
    {
        copy.push(store.segments[i].clone());
        assert(copy@ =~= store.segments@.subrange(0, i + 1));
        i = i + 1;
    }
    assert(copy@ =~= store.segments@);
    sort_rows::<Segment, SegmentOrder>(copy)
}

/// A segment that may reach into the day `[day_start_iso, day_end_iso)`:
/// it starts before the day's end and is open or ends after the day's start
/// (comparing the time texts).
pub open spec fn may_reach_day(s: Segment, day_start_iso: Seq<char>, day_end_iso: Seq<char>) -> bool {
    &&& text_lt(s.start_at@, day_end_iso)
    &&& match s.end_at.deep_view() {
        Some(e) => text_lt(day_start_iso, e),
        None => true,
    }
}

/// The segments that may reach into a day (see `may_reach_day`), earliest
/// start first.
pub fn day_candidates(store: &Store, day_start_iso: &str, day_end_iso: &str) -> (r: Vec<Segment>)
    ensures
        sorted_rows::<Segment, SegmentOrder>(r@),
        r@.to_multiset() =~= store.segments@.filter(
            |s: Segment| may_reach_day(s, day_start_iso@, day_end_iso@),
        ).to_multiset(),
{
    let ghost pred = |s: Segment| may_reach_day(s, day_start_iso@, day_end_iso@);
    let mut picked: Vec<Segment> = Vec::new();
    let mut i: usize = 0;
    while i < store.segments.len()
        invariant
            i <= store.segments@.len(),
            pred == (|s: Segment| may_reach_day(s, day_start_iso@, day_end_iso@)),
            picked@ == store.segments@.subrange(0, i as int).filter(pred),
        decreases store.segments@.len() - i,
    {
        let s = &store.segments[i];
        proof {
            assert(store.segments@.subrange(0, i + 1) =~= store.segments@.subrange(0, i as int).push(
                store.segments@[i as int],
            ));
            store.segments@.subrange(0, i as int).lemma_filter_push(store.segments@[i as int], pred);
        }
        let starts_before_end = !text_le_exec(day_end_iso, s.start_at.as_str());
        let ends_after_start = match &s.end_at {
            Some(e) => !text_le_exec(e.as_str(), day_start_iso),
            None => true,
        };
        proof {
            crate::order::lemma_text_lt_not_le(s.start_at@, day_end_iso@);
            match s.end_at.deep_view() {
                Some(e) => crate::order::lemma_text_lt_not_le(day_start_iso@, e),
                None => {},
            }
        }
        if starts_before_end && ends_after_start {
            picked.push(s.clone());
        }
        i = i + 1;
    }
    assert(store.segments@.subrange(0, i as int) =~= store.segments@);
    sort_rows::<Segment, SegmentOrder>(picked)
}

/// `out` is a part of `seg` in time: the same segment, closed.
pub open spec fn slice_of(out: Segment, seg: Segment) -> bool {
    &&& out@.id == seg@.id
    &&& out@.process_name == seg@.process_name
    &&& out@.title == seg@.title
    &&& out@.note == seg@.note
    &&& out@.todo_id == seg@.todo_id
    &&& out@.kind == seg@.kind
    &&& out@.end_at is Some
}

/// `out` is a part of one of `segs` in time.
pub open spec fn slice_of_some(out: Segment, segs: Seq<Segment>) -> bool {
    exists|j: int| 0 <= j < segs.len() && slice_of(out, #[trigger] segs[j])
}

/// The part of `seg` that falls in the day `[day_start, day_end)`, given
/// its start and end instants `t` (none when they could not be read).
pub open spec fn slice_view(seg: Segment, t: Option<(i64, i64)>, day_start: int, day_end: int) -> Option<
    SegmentView,
> {
    match t {
        Some((s, e)) => match clip(s as int, e as int, day_start, day_end) {
            Some((lo, hi)) => Some(
                SegmentView { start_at: iso_utc_millis(lo), end_at: Some(iso_utc_millis(hi)), ..seg@ },
            ),
            None => None,
        },
        None => None,
    }
}

/// The parts of the first `n` candidates that fall in the day, in order.
pub open spec fn slices_upto(
    cands: Seq<Segment>,
    times: Seq<Option<(i64, i64)>>,
    day_start: int,
    day_end: int,
    n: int,
) -> Seq<SegmentView>
    decreases n,
{
    if n <= 0 {
        Seq::empty()
    } else {
        let prev = slices_upto(cands, times, day_start, day_end, n - 1);
        match slice_view(cands[n - 1], times[n - 1], day_start, day_end) {
            Some(v) => prev.push(v),
            None => prev,
        }
    }
}

/// The views of a list of segments.
pub open spec fn segment_views(segs: Seq<Segment>) -> Seq<SegmentView> {
    segs.map_values(|s: Segment| s@)
}

/// `times` are the start and end instants of `cands` as they are read: one
/// per candidate, within chrono's range, and for a segment whose times are
/// RFC 3339 strings the instants they name (an open one ending at `now_ms`).
/// Naive local times are read in the machine's time zone, so of those no
/// more is said.
pub open spec fn times_read(cands: Seq<Segment>, times: Seq<Option<(i64, i64)>>, now_ms: i64) -> bool {
    &&& times.len() == cands.len()
    &&& forall|i: int|
        0 <= i < times.len() ==> (#[trigger] times[i] matches Some((s, e)) ==> in_range(s as int)
            && in_range(e as int))
    &&& forall|i: int|
        0 <= i < times.len() && rfc3339_millis(#[trigger] cands[i].start_at@) is Some && match cands[i].end_at.deep_view() {
            Some(e) => rfc3339_millis(e) is Some,
            None => true,
        } ==> times[i] == Some(
            (
                rfc3339_millis(cands[i].start_at@)->0 as i64,
                match cands[i].end_at.deep_view() {
                    Some(e) => rfc3339_millis(e)->0 as i64,
                    None => now_ms,
                },
            ),
        )
}

/// The stored segments `segs` listed for the day of 24 hours from
/// `day_start`: the candidates `cands` that may reach into it, earliest start
/// first, with their times `times`, cut to the day.
pub open spec fn day_listing(
    segs: Seq<Segment>,
    day_start: int,
    now_ms: i64,
    cands: Seq<Segment>,
    times: Seq<Option<(i64, i64)>>,
    listed: Seq<SegmentView>,
) -> bool {
    &&& sorted_rows::<Segment, SegmentOrder>(cands)
    &&& cands.to_multiset() =~= segs.filter(
        |s: Segment| may_reach_day(s, iso_utc_millis(day_start), iso_utc_millis(day_start + DAY_MS)),
    ).to_multiset()
    &&& times_read(cands, times, now_ms)
    &&& listed == slices_upto(cands, times, day_start, day_start + DAY_MS, cands.len() as int)
}

/// The times of segments: start and end instants as `parse_iso_to_ms`
/// reads them, an open segment ending at `now_ms`; none when a time cannot
/// be read.
fn segment_times(cands: &Vec<Segment>, now_ms: i64) -> (times: Vec<Option<(i64, i64)>>)
    requires
        in_range(now_ms as int),
    ensures
        times@.len() == cands@.len(),
        forall|i: int|
            0 <= i < times@.len() ==> (#[trigger] times@[i] matches Some((s, e)) ==> in_range(s as int)
                && in_range(e as int)),
        forall|i: int|
            0 <= i < times@.len() && rfc3339_millis(#[trigger] cands@[i].start_at@) is Some && match cands@[i].end_at.deep_view() {
                Some(e) => rfc3339_millis(e) is Some,
                None => true,
            } ==> times@[i] == Some(
                (
                    rfc3339_millis(cands@[i].start_at@)->0 as i64,
                    match cands@[i].end_at.deep_view() {
                        Some(e) => rfc3339_millis(e)->0 as i64,
                        None => now_ms,
                    },
                ),
            ),
{
    let mut times: Vec<Option<(i64, i64)>> = Vec::new();
    let mut i: usize = 0;
    while i < cands.len()
        invariant
            i <= cands@.len(),
            times@.len() == i,
            in_range(now_ms as int),
            forall|k: int|
                0 <= k < i ==> (#[trigger] times@[k] matches Some((s, e)) ==> in_range(s as int)
                    && in_range(e as int)),
            forall|k: int|
                0 <= k < i && rfc3339_millis(#[trigger] cands@[k].start_at@) is Some && match cands@[k].end_at.deep_view() {
                    Some(e) => rfc3339_millis(e) is Some,
                    None => true,
                } ==> times@[k] == Some(
                    (
                        rfc3339_millis(cands@[k].start_at@)->0 as i64,
                        match cands@[k].end_at.deep_view() {
                            Some(e) => rfc3339_millis(e)->0 as i64,
                            None => now_ms,
                        },
                    ),
                ),
        decreases cands@.len() - i,
    {
        let seg = &cands[i];
        let start = parse_iso_to_ms(seg.start_at.as_str());
        let end = match &seg.end_at {
            Some(e) => parse_iso_to_ms(e.as_str()),
            None => Some(now_ms),
        };
        let t = match (start, end) {
            (Some(s), Some(e)) => Some((s, e)),
            _ => None,
        };
        times.push(t);
        i = i + 1;
    }
    times
}

/// The parts of the candidates that fall in the day `[day_start, day_end)`,
/// in order, given the times of each (see `slices_upto`): a candidate whose
/// times are unknown, that ends before it starts, or that misses the day
/// gives no part.
pub fn day_slices(
    cands: &Vec<Segment>,
    times: &Vec<Option<(i64, i64)>>,
    day_start: i64,
    day_end: i64,
) -> (r: Vec<Segment>)
    requires
        times@.len() == cands@.len(),
        in_range(day_start as int),
        in_range(day_end as int),
        forall|i: int|
            0 <= i < times@.len() ==> (#[trigger] times@[i] matches Some((s, e)) ==> in_range(s as int)
                && in_range(e as int)),
    ensures
        r@.map_values(|s: Segment| s@) == slices_upto(
            cands@,
            times@,
            day_start as int,
            day_end as int,
            cands@.len() as int,
        ),
        forall|k: int|
            #![trigger r@[k]]
            0 <= k < r@.len() ==> exists|i: int|
                0 <= i < cands@.len() && slice_of(r@[k], #[trigger] cands@[i]),
{
    let mut out: Vec<Segment> = Vec::new();
    let mut i: usize = 0;
    while i < cands.len()
        invariant
            i <= cands@.len(),
            times@.len() == cands@.len(),
            in_range(day_start as int),
            in_range(day_end as int),
            forall|k: int|
                0 <= k < times@.len() ==> (#[trigger] times@[k] matches Some((s, e)) ==> in_range(
                    s as int,
                ) && in_range(e as int)),
            out@.map_values(|s: Segment| s@) == slices_upto(
                cands@,
                times@,
                day_start as int,
                day_end as int,
                i as int,
            ),
            forall|k: int|
                #![trigger out@[k]]
                0 <= k < out@.len() ==> exists|c: int|
                    0 <= c < cands@.len() && slice_of(out@[k], #[trigger] cands@[c]),
        decreases cands@.len() - i,
    {
        let ghost before = out@;
        let piece = match times[i] {
            Some((s, e)) => slice_segment(&cands[i], s, e, day_start, day_end),
            None => None,
        };
        match piece {
            Some(p) => {
                out.push(p);
                assert(out@.map_values(|s: Segment| s@) =~= before.map_values(|s: Segment| s@).push(
                    out@[before.len() as int]@,
                ));
                assert forall|k: int|
                    #![trigger out@[k]]
                    0 <= k < out@.len() implies exists|c: int|
                    0 <= c < cands@.len() && slice_of(out@[k], #[trigger] cands@[c]) by {
                    if k == before.len() {
                        assert(slice_of(out@[k], cands@[i as int]));
                    } else {
                        assert(out@[k] == before[k]);
                    }
                }
            },
            None => {},
        }
        i = i + 1;
    }
    out
}

/// The segments of the day `bounds`, each cut to the part that falls in it
/// (an open one taken to run until `now_ms`), earliest start first: the
/// candidates that may reach into the day (`day_candidates`) cut by
/// `day_slices` with their times (`segment_times`).
pub fn segments_in_day(store: &Store, bounds: &DayBounds, now_ms: i64) -> (r: Vec<Segment>)
    requires
        in_range(now_ms as int),
        in_range(bounds.start_ms as int),
        in_range(bounds.end_ms as int),
        bounds.spans_day_from(bounds.start_ms as int),
    ensures
        exists|cands: Seq<Segment>, times: Seq<Option<(i64, i64)>>|
            #[trigger] day_listing(
                store.segments@,
                bounds.start_ms as int,
                now_ms,
                cands,
                times,
                segment_views(r@),
            ),
        forall|k: int| 0 <= k < r@.len() ==> slice_of_some(#[trigger] r@[k], store.segments@),
{
    let day_start_iso = bounds.start_iso.as_str();
    let day_end_iso = bounds.end_iso.as_str();
    let cands = day_candidates(store, day_start_iso, day_end_iso);
    let times = segment_times(&cands, now_ms);
    let out = day_slices(&cands, &times, bounds.start_ms, bounds.end_ms);
    let ghost pred = |s: Segment| may_reach_day(s, day_start_iso@, day_end_iso@);
    let ghost segs = store.segments@;
    proof {
        assert(times_read(cands@, times@, now_ms));
        assert(day_listing(
            segs,
            bounds.start_ms as int,
            now_ms,
            cands@,
            times@,
            segment_views(out@),
        ));
        cands@.to_multiset_ensures();
        segs.filter(pred).to_multiset_ensures();
        assert forall|k: int| 0 <= k < out@.len() implies slice_of_some(#[trigger] out@[k], segs) by {
            let c = choose|c: int| 0 <= c < cands@.len() && slice_of(out@[k], #[trigger] cands@[c]);
            assert(cands@.contains(cands@[c]));
            assert(cands@.to_multiset().count(cands@[c]) > 0);
            assert(segs.filter(pred).to_multiset().count(cands@[c]) > 0);
            assert(segs.filter(pred).contains(cands@[c]));
            segs.lemma_filter_contains_rev(pred, cands@[c]);
            let j = choose|j: int| 0 <= j < segs.len() && segs[j] == cands@[c];
            assert(slice_of(out@[k], segs[j]));
        }
    }
    out
}

/// The segments of the local day `local_date`, each cut to the part that
/// falls on that day (an open one taken to run until `now_ms`), earliest
/// start first (see `segments_in_day`).  A day that is not a date gives
/// nothing.  Where the day starts is chrono's answer for the local time
/// zone, and it may have none: what is stated is that a list that is not
/// empty is the listing of a day of 24 hours within chrono's range, and that
/// every part comes from a stored segment.
pub fn list_segments_by_day(store: &Store, local_date: &str, now_ms: i64) -> (r: Vec<Segment>)
    requires
        in_range(now_ms as int),
    ensures
        parse_ymd(local_date@) is None ==> r@.len() == 0,
        r@.len() > 0 ==> exists|day_start: int, cands: Seq<Segment>, times: Seq<Option<(i64, i64)>>|
            in_range(day_start) && in_range(day_start + DAY_MS) && #[trigger] day_listing(
                store.segments@,
                day_start,
                now_ms,
                cands,
                times,
                segment_views(r@),
            ),
        forall|k: int| 0 <= k < r@.len() ==> slice_of_some(#[trigger] r@[k], store.segments@),
{
    let bounds = match day_bounds(local_date) {
        Some(b) => b,
        None => {
            return Vec::new();
        },
    };
    let out = segments_in_day(store, &bounds, now_ms);
    proof {
        let (cands, times) = choose|cands: Seq<Segment>, times: Seq<Option<(i64, i64)>>|
            #[trigger] day_listing(
                store.segments@,
                bounds.start_ms as int,
                now_ms,
                cands,
                times,
                segment_views(out@),
            );
        assert(in_range(bounds.start_ms as int) && in_range(bounds.start_ms + DAY_MS));
        assert(day_listing(
            store.segments@,
            bounds.start_ms as int,
            now_ms,
            cands,
            times,
            segment_views(out@),
        ));
    }
    out
}

/// A segment after an edit: the note given replaces the note, the to-do
/// link given replaces the link.
pub open spec fn patched_segment(s: SegmentView, patch: &SegmentPatch) -> SegmentView {
    SegmentView {
        note: match patch.note {
            Some(n) => n@,
            None => s.note,
        },
        todo_id: match patch.todo_id {
            Some(t) => t.deep_view(),
            None => s.todo_id,
        },
        ..s
    }
}

/// Edits the note and to-do link of the segment `id` and gives the segment
/// back as stored.  `None` when there is no such segment.  An edit that
/// links a to-do that does not exist is not stored, and the segment comes
/// back as it was.
pub fn update_segment(store: &mut Store, id: &str, patch: &SegmentPatch) -> (r: Option<Segment>)
    requires
        old(store).wf(),
    ensures
        final(store).wf(),
        segments_others_kept(*old(store), *final(store)),
        !has_segment(old(store).segments@, id@) ==> r is None && *final(store) == *old(store),
        forall|k: int|
            0 <= k < old(store).segments@.len() && #[trigger] old(store).segments@[k].id@ == id@
                ==> if refers_to_todo(
                patched_segment(old(store).segments@[k]@, patch).todo_id,
                todo_ids(old(store).todos@),
            ) {
                &&& r matches Some(s) && s@ == patched_segment(old(store).segments@[k]@, patch)
                &&& final(store).segments@.len() == old(store).segments@.len()
                &&& final(store).segments@[k]@ == patched_segment(old(store).segments@[k]@, patch)
                &&& forall|j: int|
                    0 <= j < old(store).segments@.len() && j != k ==> final(store).segments@[j]
                        == old(store).segments@[j]
            } else {
                r == Some(old(store).segments@[k]) && *final(store) == *old(store)
            },
{
    let k = match find_segment(&store.segments, id) {
        Some(k) => k,
        None => {
            return None;
        },
    };
    let ghost before = *store;
    proof {
        assert forall|j: int|
            0 <= j < before.segments@.len() && #[trigger] before.segments@[j].id@ == id@ implies j
            == k by {
            if j != k {
                assert(before.segments@[k as int].id@ == before.segments@[j].id@);
            }
        }
    }
    let existing = &store.segments[k];
    let note = match &patch.note {
        Some(n) => n.clone(),
        None => existing.note.clone(),
    };
    let todo_id = match &patch.todo_id {
        None => clone_opt_string(&existing.todo_id),
        Some(t) => clone_opt_string(t),
    };
    let linkable = match &todo_id {
        Some(t) => find_todo_ref(store, t.as_str()).is_some(),
        None => true,
    };
    if !linkable {
        return Some(store.segments[k].clone());
    }
    let seg = Segment {
        id: existing.id.clone(),
        start_at: existing.start_at.clone(),
        end_at: clone_opt_string(&existing.end_at),
        process_name: existing.process_name.clone(),
        title: existing.title.clone(),
        note,
        todo_id,
        kind: existing.kind,
    };
    store.segments.set(k, seg.clone());
    proof {
        assert forall|i: int, j: int| 0 <= i < j < store.segments@.len() implies #[trigger] store.segments@[i].id@
            != #[trigger] store.segments@[j].id@ by {
            assert(store.segments@[i].id@ == before.segments@[i].id@);
            assert(store.segments@[j].id@ == before.segments@[j].id@);
        }
        assert forall|i: int| 0 <= i < store.segments@.len() implies refers_to_todo(
            (#[trigger] store.segments@[i]).todo_id.deep_view(),
            todo_ids(store.todos@),
        ) by {
            if i != k {
                assert(store.segments@[i] == before.segments@[i]);
            }
        }
    }
    Some(seg)
}

/// The to-do ids that a title lookup asks for: the non-empty ids given.
pub open spec fn wanted_todo(ids: Seq<String>, id: Seq<char>) -> bool {
    id.len() > 0 && texts(ids).contains(id)
}

fn contains_text(v: &[String], s: &str) -> (r: bool)
    ensures
        r == texts(v@).contains(s@),
{
    let mut i: usize = 0;
    while i < v.len()
        invariant
            i <= v@.len(),
            forall|j: int| 0 <= j < i ==> texts(v@)[j] != s@,
        decreases v@.len() - i,
    {
        if text_eq(v[i].as_str(), s) {
            assert(texts(v@)[i as int] == s@);
            return true;
        }
        i = i + 1;
    }
    false
}

/// The (id, title) of every to-do whose id is among the non-empty
/// `todo_ids`, in table order.
pub fn fetch_todo_titles(store: &Store, todo_ids: &[String]) -> (r: Vec<(String, String)>)
    ensures
        r@.len() == store.todos@.filter(|t: Todo| wanted_todo(todo_ids@, t.id@)).len(),
        forall|k: int|
            0 <= k < r@.len() ==> (#[trigger] r@[k]).0@ == store.todos@.filter(
                |t: Todo| wanted_todo(todo_ids@, t.id@),
            )[k].id@ && r@[k].1@ == store.todos@.filter(
                |t: Todo| wanted_todo(todo_ids@, t.id@),
            )[k].title@,
{
    let ghost pred = |t: Todo| wanted_todo(todo_ids@, t.id@);
    let ghost todos = store.todos@;
    let mut out: Vec<(String, String)> = Vec::new();
    let mut i: usize = 0;
    while i < store.todos.len()
        invariant
            i <= todos.len(),
            todos == store.todos@,
            pred == (|t: Todo| wanted_todo(todo_ids@, t.id@)),
            out@.len() == todos.subrange(0, i as int).filter(pred).len(),
            forall|k: int|
                0 <= k < out@.len() ==> (#[trigger] out@[k]).0@ == todos.subrange(
                    0,
                    i as int,
                ).filter(pred)[k].id@ && out@[k].1@ == todos.subrange(0, i as int).filter(
                    pred,
                )[k].title@,
        decreases todos.len() - i,
    {
        let t = &store.todos[i];
        proof {
            assert(todos.subrange(0, i + 1) =~= todos.subrange(0, i as int).push(todos[i as int]));
            todos.subrange(0, i as int).lemma_filter_push(todos[i as int], pred);
        }
        if t.id.as_str().unicode_len() > 0 && contains_text(todo_ids, t.id.as_str()) {
            out.push((t.id.clone(), t.title.clone()));
        }
        i = i + 1;
    }
    assert(todos.subrange(0, i as int) =~= todos);
    out
}

/// A foreground-window event: `kind` is `foreground` (another window came
/// to the front) or `namechange` (a window's title changed).
pub struct WinHookEvent {
    pub kind: &'static str,
    pub hwnd: i64,
    pub process_name: String,
    pub title: String,
}

/// What window tracking remembers between events: the window in front, and
/// the process and title that the open segment was written for.
pub struct WindowTracking {
    pub current_hwnd: i64,
    pub open_process: String,
    pub open_title: String,
}

/// The segment threshold of the settings: `minSegmentSec` read as a whole
/// number, 0 (no merging) when it is missing, not a number, or 0.
pub open spec fn min_segment_threshold(store: Store) -> int {
    match parse_decimal(setting_or_default(store.settings@, KEY_MIN_SEGMENT_SEC@), u64::MAX as int) {
        Some(n) => n,
        None => 0,
    }
}

/// The threshold of segment merging (see `min_segment_threshold`).
pub fn min_segment_sec(store: &Store) -> (r: u64)
    requires
        store.wf(),
    ensures
        r == min_segment_threshold(*store),
{
    let raw = get_with_default(store, KEY_MIN_SEGMENT_SEC);
    match parse_u64(raw.as_str()) {
        Some(n) => n,
        None => 0,
    }
}

/// Events that change nothing: a title change of a window that is not in
/// front, or one that repeats the open segment's window (or blanks its
/// title).
pub open spec fn ignores_event(st: WindowTracking, e: WinHookEvent) -> bool {
    &&& e.kind@ == "namechange"@
    &&& (st.current_hwnd != e.hwnd || (e.process_name@ == st.open_process@ && (e.title@
        == st.open_title@ || e.title@.len() == 0)))
}

/// The state after an event was written: its window is in front and the
/// open segment is its window's.
pub open spec fn followed(st: WindowTracking, e: WinHookEvent) -> bool {
    &&& st.current_hwnd == e.hwnd
    &&& st.open_process@ == e.process_name@
    &&& st.open_title@ == e.title@
}

/// The input of the segment that a window event opens.
pub open spec fn window_input(e: WinHookEvent) -> OpenSegmentInput {
    OpenSegmentInput {
        process_name: e.process_name,
        title: e.title,
        kind: None,
        todo_id: None,
        start_at: None,
    }
}

/// A window event `e` written at the time text `now`, merging or not as
/// `merge` says, with `id` for a segment it opens: the tracking `st0` and
/// store `s0` before, `st1` and `s1` after (see `WindowTracking::on_event_at`).
pub open spec fn event_outcome(
    st0: WindowTracking,
    s0: Store,
    e: WinHookEvent,
    id: Seq<char>,
    now: Seq<char>,
    merge: bool,
    st1: WindowTracking,
    s1: Store,
) -> bool {
    &&& ignores_event(st0, e) ==> st1 == st0 && s1 == s0
    &&& !ignores_event(st0, e) && merge ==> {
        &&& followed(st1, e)
        &&& s1.segments@.len() == s0.segments@.len()
        &&& forall|i: int|
            0 <= i < s1.segments@.len() ==> (#[trigger] s1.segments@[i])@ == after_rename(
                s0.segments@[i],
                e.process_name@,
                e.title@,
            )
    }
    &&& !ignores_event(st0, e) && !merge ==> {
        &&& s1.segments@.len() >= s0.segments@.len()
        &&& forall|i: int|
            0 <= i < s0.segments@.len() ==> (#[trigger] s1.segments@[i])@ == after_close(
                s0.segments@[i],
                now,
            )
        &&& if has_segment(s0.segments@, id) {
            &&& s1.segments@.len() == s0.segments@.len()
            &&& st1 == st0
        } else {
            &&& s1.segments@.len() == s0.segments@.len() + 1
            &&& s1.segments@.last()@ == new_segment(id, now, &window_input(e))
            &&& followed(st1, e)
        }
    }
}

/// Tracking before the first event: no window in front.
pub fn start_tracking() -> (st: WindowTracking)
    ensures
        st.current_hwnd == -1,
        st.open_process@ == Seq::<char>::empty(),
        st.open_title@ == Seq::<char>::empty(),
{
    WindowTracking { current_hwnd: -1, open_process: String::new(), open_title: String::new() }
}

impl WindowTracking {
    /// Whether the event changes nothing (see `ignores_event`).
    pub fn ignores(&self, e: &WinHookEvent) -> (r: bool)
        ensures
            r == ignores_event(*self, *e),
    {
        if !text_eq(e.kind, "namechange") {
            return false;
        }
        self.current_hwnd != e.hwnd || (text_eq(e.process_name.as_str(), self.open_process.as_str())
            && (text_eq(e.title.as_str(), self.open_title.as_str()) || e.title.as_str().unicode_len()
            == 0))
    }

    /// Writes a window event into the segments at `now`.  An ignored event
    /// changes nothing.  When `merge` holds the open segment is moved to the
    /// event's window; otherwise the open segment is ended at `now` and a
    /// segment with id `id` is opened for the event's window.  The state
    /// follows the event once its segment is written.
    pub fn on_event_at(
        &mut self,
        store: &mut Store,
        e: &WinHookEvent,
        id: &str,
        now: &str,
        merge: bool,
    )
        requires
            old(store).wf(),
        ensures
            final(store).wf(),
            segments_others_kept(*old(store), *final(store)),
            event_outcome(*old(self), *old(store), *e, id@, now@, merge, *final(self), *final(store)),
            at_most_one_open(old(store).segments@) ==> at_most_one_open(final(store).segments@),
    {
        if self.ignores(e) {
            return ;
        }
        let ghost before = *store;
        if merge {
            replace_open_process_title(store, e.process_name.as_str(), e.title.as_str());
            proof {
                if at_most_one_open(before.segments@) {
                    assert forall|i: int, j: int|
                        0 <= i < store.segments@.len() && 0 <= j < store.segments@.len() && is_open(
                            #[trigger] store.segments@[i],
                        ) && is_open(#[trigger] store.segments@[j]) implies i == j by {
                        assert(is_open(before.segments@[i]));
                        assert(is_open(before.segments@[j]));
                    }
                }
            }
        } else {
            let _ = close_open(store, now);
            let ghost closed = *store;
            let input = OpenSegmentInput {
                process_name: e.process_name.clone(),
                title: e.title.clone(),
                kind: None,
                todo_id: None,
                start_at: None,
            };
            let res = open_segment_at(store, id, now, &input);
            proof {
                assert(has_segment(closed.segments@, id@) == has_segment(before.segments@, id@)) by {
                    if has_segment(closed.segments@, id@) {
                        let j = choose|j: int| 0 <= j < closed.segments@.len() && #[trigger] closed.segments@[j].id@ == id@;
                        assert(closed.segments@[j]@ == after_close(before.segments@[j], now@));
                    }
                    if has_segment(before.segments@, id@) {
                        let j = choose|j: int| 0 <= j < before.segments@.len() && #[trigger] before.segments@[j].id@ == id@;
                        assert(closed.segments@[j]@ == after_close(before.segments@[j], now@));
                    }
                }
                assert forall|i: int| 0 <= i < before.segments@.len() implies (#[trigger] store.segments@[i])@
                    == after_close(before.segments@[i], now@) by {
                    assert(closed.segments@[i]@ == after_close(before.segments@[i], now@));
                    if res is Ok {
                        assert(store.segments@[i] == closed.segments@[i]);
                    }
                }
                assert forall|i: int, j: int|
                    0 <= i < store.segments@.len() && 0 <= j < store.segments@.len() && is_open(
                        #[trigger] store.segments@[i],
                    ) && is_open(#[trigger] store.segments@[j]) implies i == j by {
                    if i < before.segments@.len() {
                        assert(closed.segments@[i]@ == after_close(before.segments@[i], now@));
                    }
                    if j < before.segments@.len() {
                        assert(closed.segments@[j]@ == after_close(before.segments@[j], now@));
                    }
                }
            }
            match res {
                Ok(_) => {},
                Err(_) => {
                    return ;
                },
            }
        }
        self.current_hwnd = e.hwnd;
        self.open_process = e.process_name.clone();
        self.open_title = e.title.clone();
    }

    /// Writes a window event into the segments now: what `on_event_at` does
    /// at the present instant, with a fresh random id, merging as
    /// `should_merge_open` decides with the threshold of the settings (see
    /// `event_outcome` and `merge_decided`).
    pub fn on_event(&mut self, store: &mut Store, e: &WinHookEvent)
        requires
            old(store).wf(),
        ensures
            final(store).wf(),
            segments_others_kept(*old(store), *final(store)),
            ignores_event(*old(self), *e) ==> *final(self) == *old(self) && *final(store) == *old(store),
            !ignores_event(*old(self), *e) ==> exists|ms: int, id: Seq<char>, merge: bool|
                in_range(ms) && is_uuid_v4_text(id) && merge_decided(
                    *old(store),
                    iso_utc_millis(ms),
                    min_segment_threshold(*old(store)),
                    merge,
                ) && #[trigger] event_outcome(
                    *old(self),
                    *old(store),
                    *e,
                    id,
                    iso_utc_millis(ms),
                    merge,
                    *final(self),
                    *final(store),
                ),
            at_most_one_open(old(store).segments@) ==> at_most_one_open(final(store).segments@),
            !ignores_event(*old(self), *e) && min_segment_threshold(*old(store)) == 0 ==> forall|i: int|
                0 <= i < old(store).segments@.len() ==> !is_open(#[trigger] final(store).segments@[i]),
    {
        if self.ignores(e) {
            return ;
        }
        let id = crate::store::new_uuid();
        let ms = crate::time::utc_now_millis();
        let now = crate::time::iso_utc_z_millis(ms);
        let threshold = min_segment_sec(store);
        let merge = should_merge_open(store, now.as_str(), threshold);
        self.on_event_at(store, e, id.as_str(), now.as_str(), merge);
    }
}

/// Ending the open segments leaves none open, and ending them again (at
/// any time) changes nothing: `close_open` is idempotent.
pub proof fn lemma_close_open_idempotent(
    segs: Seq<Segment>,
    closed: Seq<Segment>,
    at: Seq<char>,
    again: Seq<char>,
)
    requires
        closed.len() == segs.len(),
        forall|i: int| 0 <= i < closed.len() ==> (#[trigger] closed[i])@ == after_close(segs[i], at),
    ensures
        open_count(closed) == 0,
        forall|i: int| 0 <= i < closed.len() ==> after_close(#[trigger] closed[i], again) == closed[i]@,
{
    let pred = |s: Segment| is_open(s);
    assert(closed.all(|s: Segment| !pred(s))) by {
        assert forall|i: int| 0 <= i < closed.len() implies (|s: Segment| !pred(s))(#[trigger] closed[i]) by {
            assert(closed[i]@ == after_close(segs[i], at));
        }
    }
    closed.lemma_all_neg_filter_empty(pred);
    assert forall|i: int| 0 <= i < closed.len() implies after_close(#[trigger] closed[i], again)
        == closed[i]@ by {
        assert(closed[i]@ == after_close(segs[i], at));
    }
}

} // verus!
