//! Foreground-window events of Windows: their kind, the process name of a
//! window's executable, and the filter that drops repeated events.

use vstd::prelude::*;

use crate::text::text_eq;

verus! {

/// The event of a window coming to the front.
pub const EVENT_SYSTEM_FOREGROUND: u32 = 0x0003;

/// The event of an object's name (a window's title) changing.
pub const EVENT_OBJECT_NAMECHANGE: u32 = 0x800C;

/// The kind of a window event: `foreground` for a window coming to the
/// front, `namechange` for anything else.
pub fn event_kind(event: u32) -> (s: &'static str)
    ensures
        s@ == if event == EVENT_SYSTEM_FOREGROUND {
            "foreground"@
        } else {
            "namechange"@
        },
{
    if event == EVENT_SYSTEM_FOREGROUND {
        "foreground"
    } else {
        "namechange"
    }
}

/// A path separator: `\` or `/`.
pub open spec fn is_path_separator(c: char) -> bool {
    c == '\\' || c == '/'
}

/// The position of the last separator of `s`, -1 when it has none.
pub open spec fn last_separator(s: Seq<char>) -> int
    decreases s.len(),
{
    if s.len() == 0 {
        -1
    } else if is_path_separator(s.last()) {
        s.len() - 1
    } else {
        last_separator(s.drop_last())
    }
}

/// What follows the last separator of `s`: all of it when it has none.
pub open spec fn basename(s: Seq<char>) -> Seq<char> {
    s.subrange(last_separator(s) + 1, s.len() as int)
}

proof fn lemma_last_separator(s: Seq<char>)
    ensures
        -1 <= last_separator(s) < s.len(),
        last_separator(s) >= 0 ==> is_path_separator(s[last_separator(s)]),
        forall|j: int| last_separator(s) < j < s.len() ==> !is_path_separator(#[trigger] s[j]),
    decreases s.len(),
{
    if s.len() > 0 && !is_path_separator(s.last()) {
        lemma_last_separator(s.drop_last());
        assert forall|j: int| last_separator(s) < j < s.len() implies !is_path_separator(
            #[trigger] s[j],
        ) by {
            if j < s.len() - 1 {
                assert(s[j] == s.drop_last()[j]);
            }
        }
    }
}

/// The file name of an executable's full path: what follows its last `\`
/// or `/`.
pub fn process_basename_from_path(full: &str) -> (r: &str)
    ensures
        r@ == basename(full@),
{
    let t = crate::text::chars_of(full);
    let mut k: usize = t.len();
    while k > 0 && !(t[k - 1] == '\\' || t[k - 1] == '/')
        invariant
            t@ == full@,
            k <= t@.len(),
            forall|j: int| k <= j < t@.len() ==> !is_path_separator(#[trigger] t@[j]),
        decreases k,
    {
        k = k - 1;
    }
    proof {
        lemma_last_separator(full@);
        let ls = last_separator(full@);
        if ls + 1 < k {
            assert(is_path_separator(full@[k - 1]));
        }
        if ls + 1 > k {
            assert(is_path_separator(full@[ls]));
        }
    }
    full.substring_char(k, t.len())
}

/// The last event passed on: its kind, process and title.
pub struct Dedup {
    pub last_type: &'static str,
    pub last_proc: String,
    pub last_title: String,
}

impl Dedup {
    /// A filter that has passed nothing yet.
    pub fn new() -> (d: Dedup)
        ensures
            d.last_type@ == Seq::<char>::empty(),
            d.last_proc@ == Seq::<char>::empty(),
            d.last_title@ == Seq::<char>::empty(),
    {
        proof {
            reveal_strlit("");
        }
        Dedup { last_type: "", last_proc: String::new(), last_title: String::new() }
    }

    /// Whether an event is passed on: not when it repeats the last one passed
    /// (same kind, process and title).  A passed event becomes the last one.
    pub fn should_emit(&mut self, kind: &'static str, process: &str, title: &str) -> (r: bool)
        ensures
            r == !(old(self).last_type@ == kind@ && old(self).last_proc@ == process@
                && old(self).last_title@ == title@),
            r ==> final(self).last_type@ == kind@ && final(self).last_proc@ == process@
                && final(self).last_title@ == title@,
            !r ==> *final(self) == *old(self),
    {
        if text_eq(self.last_type, kind) && text_eq(self.last_proc.as_str(), process) && text_eq(
            self.last_title.as_str(),
            title,
        ) {
            return false;
        }
        self.last_type = kind;
        self.last_proc = process.to_owned();
        self.last_title = title.to_owned();
        true
    }
}

/// The executable names already looked up, by process id.
pub struct PidCache {
    pub entries: Vec<(u32, String)>,
}

impl PidCache {
    /// Each process id is cached once.
    pub open spec fn wf(&self) -> bool {
        forall|i: int, j: int|
            0 <= i < j < self.entries@.len() ==> #[trigger] self.entries@[i].0
                != #[trigger] self.entries@[j].0
    }

    /// The name cached for `pid`, if any.
    pub open spec fn cached(&self, pid: u32) -> Option<Seq<char>> {
        if exists|i: int| 0 <= i < self.entries@.len() && #[trigger] self.entries@[i].0 == pid {
            let i = choose|i: int| 0 <= i < self.entries@.len() && #[trigger] self.entries@[i].0 == pid;
            Some(self.entries@[i].1@)
        } else {
            None
        }
    }

    /// An empty cache.
    pub fn new() -> (c: PidCache)
        ensures
            c.wf(),
            forall|pid: u32| c.cached(pid) is None,
    {
        PidCache { entries: Vec::new() }
    }

    fn find(&self, pid: u32) -> (r: Option<usize>)
        ensures
            match r {
                Some(i) => i < self.entries@.len() && self.entries@[i as int].0 == pid,
                None => forall|j: int| 0 <= j < self.entries@.len() ==> (#[trigger] self.entries@[j]).0 != pid,
            },
    {
        let mut i: usize = 0;
        while i < self.entries.len()
            invariant
                i <= self.entries@.len(),
                forall|j: int| 0 <= j < i ==> (#[trigger] self.entries@[j]).0 != pid,
            decreases self.entries@.len() - i,
        {
            if self.entries[i].0 == pid {
                return Some(i);
            }
            i = i + 1;
        }
        None
    }
}

/// The executable name of process `pid`: empty when there is no process;
/// the cached name when it was looked up before; else what `query` answers,
/// which is then cached.
pub fn pid_to_basename<F: Fn(u32) -> String>(cache: &mut PidCache, pid: Option<u32>, query: F) -> (r: String)
    requires
        old(cache).wf(),
        forall|p: u32| call_requires(query, (p,)),
    ensures
        final(cache).wf(),
        pid is None ==> r@ == Seq::<char>::empty() && *final(cache) == *old(cache),
        pid is Some && old(cache).cached(pid->0) is Some ==> r@ == old(cache).cached(pid->0)->0
            && *final(cache) == *old(cache),
        pid is Some && old(cache).cached(pid->0) is None ==> call_ensures(query, (pid->0,), r)
            && final(cache).cached(pid->0) == Some(r@) && forall|q: u32|
            q != pid->0 ==> #[trigger] final(cache).cached(q) == old(cache).cached(q),
{
    let p = match pid {
        Some(p) => p,
        None => {
            return String::new();
        },
    };
    match cache.find(p) {
        Some(i) => {
            proof {
                let k = choose|k: int| 0 <= k < cache.entries@.len() && #[trigger] cache.entries@[k].0 == p;
                if k != i {
                    assert(cache.entries@[i as int].0 == cache.entries@[k].0);
                }
            }
            cache.entries[i].1.clone()
        },
        None => {
            let name = query(p);
            let ghost before = *cache;
            cache.entries.push((p, name.clone()));
            proof {
                assert forall|i: int, j: int| 0 <= i < j < cache.entries@.len() implies #[trigger] cache.entries@[i].0
                    != #[trigger] cache.entries@[j].0 by {
                    assert(cache.entries@[i] == before.entries@[i]);
                    if j < before.entries@.len() {
                        assert(cache.entries@[j] == before.entries@[j]);
                    }
                }
                let n = before.entries@.len() as int;
                assert(cache.entries@[n].0 == p);
                assert(cache.cached(p) == Some(name@)) by {
                    let k = choose|k: int| 0 <= k < cache.entries@.len() && #[trigger] cache.entries@[k].0 == p;
                    if k != n {
                        assert(cache.entries@[k] == before.entries@[k]);
                    }
                }
                assert forall|q: u32| q != p implies #[trigger] cache.cached(q) == before.cached(q) by {
                    if exists|i: int| 0 <= i < cache.entries@.len() && #[trigger] cache.entries@[i].0 == q {
                        let k = choose|k: int| 0 <= k < cache.entries@.len() && #[trigger] cache.entries@[k].0 == q;
                        assert(cache.entries@[k] == before.entries@[k]);
                        let m = choose|m: int| 0 <= m < before.entries@.len() && #[trigger] before.entries@[m].0 == q;
                        if m != k {
                            assert(before.entries@[m].0 == before.entries@[k].0);
                        }
                    }
                    if exists|i: int| 0 <= i < before.entries@.len() && #[trigger] before.entries@[i].0 == q {
                        let m = choose|m: int| 0 <= m < before.entries@.len() && #[trigger] before.entries@[m].0 == q;
                        assert(cache.entries@[m] == before.entries@[m]);
                    }
                }
            }
            name
        },
    }
}

} // verus!
