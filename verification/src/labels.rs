//! `#tag` labels written in free text.
//!
//! A label is a `#` followed by one to sixty label characters (Unicode
//! letters, Unicode numbers, `_` and `-`).  Labels that lie inside a web
//! address (`http://…` or `https://…` up to the next white space) are not
//! labels: `https://example.com/page#section` names no label.  The scan is
//! leftmost-first and non-overlapping, both for addresses and for labels, and
//! labels come out once each, in the order of their first occurrence.

use vstd::prelude::*;

use crate::text::{chars_of, is_white_space, white_space};

verus! {

/// Whether `c` belongs to the Unicode general categories Letter (`L`) or
/// Number (`N`), as the regex crate's class `[\p{L}\p{N}]` decides it.
pub uninterp spec fn is_letter_or_number(c: char) -> bool;

/// Asks the regex crate whether `c` matches the class `[\p{L}\p{N}]`.
/// The contract claims only that the answer is the one named
/// `is_letter_or_number(c)`, a function of `c` alone.
#[verifier::external_body]
fn letter_or_number(c: char) -> (r: bool)
    ensures
        r == is_letter_or_number(c),
{
    let mut buf = [0u8;4];
    let class = regex::Regex::new(r"\A[\p{L}\p{N}]\z").unwrap();
    class.is_match(c.encode_utf8(&mut buf))
}

/// ASCII letters and digits.
pub open spec fn is_ascii_alphanumeric(c: char) -> bool {
    ('0' <= c && c <= '9') || ('A' <= c && c <= 'Z') || ('a' <= c && c <= 'z')
}

/// The characters of an ASCII word: `[A-Za-z0-9_]`.
pub open spec fn is_ascii_word_char(c: char) -> bool {
    is_ascii_alphanumeric(c) || c == '_'
}

/// The characters a label is made of: `[\p{L}\p{N}_-]`.  Within ASCII the
/// letters and numbers are exactly `A-Z`, `a-z` and `0-9`.
pub open spec fn is_label_char(c: char) -> bool {
    if (c as u32) < 128 {
        is_ascii_alphanumeric(c) || c == '_' || c == '-'
    } else {
        is_letter_or_number(c)
    }
}

/// The longest a label may be, in characters.
pub const MAX_LABEL_CHARS: usize = 60;

/// Length of the scheme `https://` (8) or `http://` (7) that starts at `p`,
/// or 0 when neither does.
pub open spec fn scheme_len(t: Seq<char>, p: int) -> int {
    if 0 <= p && p + 8 <= t.len() && t[p] == 'h' && t[p + 1] == 't' && t[p + 2] == 't' && t[p
        + 3] == 'p' && t[p + 4] == 's' && t[p + 5] == ':' && t[p + 6] == '/' && t[p + 7] == '/' {
        8
    } else if 0 <= p && p + 7 <= t.len() && t[p] == 'h' && t[p + 1] == 't' && t[p + 2] == 't'
        && t[p + 3] == 'p' && t[p + 4] == ':' && t[p + 5] == '/' && t[p + 6] == '/' {
        7
    } else {
        0
    }
}

/// The first position at or after `q` that holds white space, or the end.
pub open spec fn run_end(t: Seq<char>, q: int) -> int
    decreases t.len() - q,
{
    if q >= t.len() {
        q
    } else if is_white_space(t[q]) {
        q
    } else {
        run_end(t, q + 1)
    }
}

/// Where the web address that starts at `p` ends (`https?://[^\s]+`), if one does.
pub open spec fn url_end_at(t: Seq<char>, p: int) -> Option<int> {
    let k = scheme_len(t, p);
    if k > 0 && p + k < t.len() && !is_white_space(t[p + k]) {
        Some(run_end(t, p + k))
    } else {
        None
    }
}

/// All web addresses found scanning from `p`, leftmost first, without overlap.
pub open spec fn url_spans(t: Seq<char>, p: int) -> Seq<(int, int)>
    decreases t.len() - p,
{
    if p < 0 || p >= t.len() {
        Seq::empty()
    } else {
        match url_end_at(t, p) {
            Some(e) => {
                proof {
                    lemma_run_end_bounds(t, p + scheme_len(t, p));
                }
                seq![(p, e)] + url_spans(t, e)
            },
            None => url_spans(t, p + 1),
        }
    }
}

/// An address counts only where it does not continue an ASCII word.
pub open spec fn url_stands_alone(t: Seq<char>, span: (int, int)) -> bool {
    span.0 == 0 || !is_ascii_word_char(t[span.0 - 1])
}

/// The web addresses of `t` whose `#` fragments are not labels.
pub open spec fn address_spans(t: Seq<char>) -> Seq<(int, int)> {
    url_spans(t, 0).filter(|span: (int, int)| url_stands_alone(t, span))
}

/// The end of the run of label characters that starts at `q`, stopping at `limit`.
pub open spec fn label_run_end(t: Seq<char>, q: int, limit: int) -> int
    decreases t.len() - q,
{
    if q >= t.len() || q >= limit || !is_label_char(t[q]) {
        q
    } else {
        label_run_end(t, q + 1, limit)
    }
}

/// Where the label match that starts at `p` ends (`#[\p{L}\p{N}_-]{1,60}`), if one does.
pub open spec fn label_end_at(t: Seq<char>, p: int) -> Option<int> {
    if 0 <= p && p + 1 < t.len() && t[p] == '#' && is_label_char(t[p + 1]) {
        Some(label_run_end(t, p + 1, p + 1 + MAX_LABEL_CHARS))
    } else {
        None
    }
}

/// All label matches found scanning from `p`, leftmost first, without overlap.
pub open spec fn label_spans(t: Seq<char>, p: int) -> Seq<(int, int)>
    decreases t.len() - p,
{
    if p < 0 || p >= t.len() {
        Seq::empty()
    } else {
        match label_end_at(t, p) {
            Some(e) => {
                proof {
                    lemma_label_run_end_bounds(t, p + 1, p + 1 + MAX_LABEL_CHARS);
                }
                seq![(p, e)] + label_spans(t, e)
            },
            None => label_spans(t, p + 1),
        }
    }
}

/// Whether the span lies inside one of the addresses of `t`.
pub open spec fn inside_address(t: Seq<char>, span: (int, int)) -> bool {
    exists|i: int|
        0 <= i < address_spans(t).len() && #[trigger] address_spans(t)[i].0 <= span.0 && span.1
            <= address_spans(t)[i].1
}

/// The text of a label match, without its `#`.
pub open spec fn label_text(t: Seq<char>, span: (int, int)) -> Seq<char> {
    t.subrange(span.0 + 1, span.1)
}

/// The labels of `t`, each once, in order of first occurrence.
pub open spec fn labels_of(t: Seq<char>) -> Seq<Seq<char>> {
    label_spans(t, 0).filter(|span: (int, int)| !inside_address(t, span)).map_values(
        |span: (int, int)| label_text(t, span),
    ).remove_duplicates(Seq::empty())
}

pub proof fn lemma_run_end_bounds(t: Seq<char>, q: int)
    requires
        0 <= q <= t.len(),
    ensures
        q <= run_end(t, q) <= t.len(),
        forall|j: int| q <= j < run_end(t, q) ==> !is_white_space(t[j]),
    decreases t.len() - q,
{
    if q < t.len() && !is_white_space(t[q]) {
        lemma_run_end_bounds(t, q + 1);
    }
}

pub proof fn lemma_label_run_end_bounds(t: Seq<char>, q: int, limit: int)
    requires
        0 <= q <= t.len(),
    ensures
        q <= label_run_end(t, q, limit) <= t.len(),
        q <= limit ==> label_run_end(t, q, limit) <= limit,
        forall|j: int| q <= j < label_run_end(t, q, limit) ==> is_label_char(t[j]),
    decreases t.len() - q,
{
    if q < t.len() && q < limit && is_label_char(t[q]) {
        lemma_label_run_end_bounds(t, q + 1, limit);
    }
}

/// Executable test of `is_label_char`.
fn label_char(c: char) -> (r: bool)
    ensures
        r == is_label_char(c),
{
    if (c as u32) < 128 {
        ('0' <= c && c <= '9') || ('A' <= c && c <= 'Z') || ('a' <= c && c <= 'z') || c == '_'
            || c == '-'
    } else {
        letter_or_number(c)
    }
}

fn scheme_len_at(t: &Vec<char>, p: usize) -> (k: usize)
    requires
        p < t@.len(),
    ensures
        k as int == scheme_len(t@, p as int),
{
    let n = t.len();
    if n - p >= 8 && t[p] == 'h' && t[p + 1] == 't' && t[p + 2] == 't' && t[p + 3] == 'p' && t[p
        + 4] == 's' && t[p + 5] == ':' && t[p + 6] == '/' && t[p + 7] == '/' {
        8
    } else if n - p >= 7 && t[p] == 'h' && t[p + 1] == 't' && t[p + 2] == 't' && t[p + 3] == 'p'
        && t[p + 4] == ':' && t[p + 5] == '/' && t[p + 6] == '/' {
        7
    } else {
        0
    }
}

fn run_end_from(t: &Vec<char>, q: usize) -> (e: usize)
    requires
        q <= t@.len(),
    ensures
        e as int == run_end(t@, q as int),
{
    let mut i = q;
    while i < t.len() && !white_space(t[i])
        invariant
            q <= i <= t@.len(),
            run_end(t@, i as int) == run_end(t@, q as int),
        decreases t@.len() - i,
    {
        i = i + 1;
    }
    i
}

fn url_end_from(t: &Vec<char>, p: usize) -> (r: Option<usize>)
    requires
        p < t@.len(),
    ensures
        match url_end_at(t@, p as int) {
            Some(e) => r == Some(e as usize),
            None => r is None,
        },
{
    let k = scheme_len_at(t, p);
    if k > 0 && k < t.len() - p && !white_space(t[p + k]) {
        Some(run_end_from(t, p + k))
    } else {
        None
    }
}

/// The exact span list held in a vector of index pairs.
pub open spec fn spans_view(v: Seq<(usize, usize)>) -> Seq<(int, int)> {
    v.map_values(|x: (usize, usize)| (x.0 as int, x.1 as int))
}

proof fn lemma_filter_cons<A>(x: A, rest: Seq<A>, pred: spec_fn(A) -> bool)
    ensures
        (seq![x] + rest).filter(pred) == if pred(x) {
            seq![x] + rest.filter(pred)
        } else {
            rest.filter(pred)
        },
{
    broadcast use vstd::seq_lib::group_seq_properties;

    Seq::filter_distributes_over_add(seq![x], rest, pred);
    reveal_with_fuel(Seq::filter, 2);
    assert(seq![x].drop_last() =~= Seq::<A>::empty());
}

/// The addresses of `t`, computed.
fn find_address_spans(t: &Vec<char>) -> (v: Vec<(usize, usize)>)
    ensures
        spans_view(v@) == address_spans(t@),
{
    let ghost pred = |span: (int, int)| url_stands_alone(t@, span);
    let mut v: Vec<(usize, usize)> = Vec::new();
    let mut p: usize = 0;
    while p < t.len()
        invariant
            p <= t@.len(),
            pred == (|span: (int, int)| url_stands_alone(t@, span)),
            spans_view(v@) + url_spans(t@, p as int).filter(pred) == address_spans(t@),
        decreases t@.len() - p,
    {
        let ghost old_v = v@;
        match url_end_from(t, p) {
            Some(e) => {
                proof {
                    lemma_run_end_bounds(t@, p + scheme_len(t@, p as int));
                    lemma_filter_cons((p as int, e as int), url_spans(t@, e as int), pred);
                }
                if p == 0 || !(t[p - 1] == '_' || ('0' <= t[p - 1] && t[p - 1] <= '9') || ('A'
                    <= t[p - 1] && t[p - 1] <= 'Z') || ('a' <= t[p - 1] && t[p - 1] <= 'z')) {
                    v.push((p, e));
                    assert(spans_view(v@) =~= spans_view(old_v) + seq![(p as int, e as int)]);
                }
                p = e;
            },
            None => {
                p = p + 1;
            },
        }
    }
    assert(url_spans(t@, p as int) =~= Seq::empty());
    assert(spans_view(v@) + Seq::<(int, int)>::empty() =~= spans_view(v@));
    v
}

fn label_run_end_from(t: &Vec<char>, q: usize, limit: usize) -> (e: usize)
    requires
        q <= t@.len(),
    ensures
        e as int == label_run_end(t@, q as int, limit as int),
{
    let mut i = q;
    while i < t.len() && i < limit && label_char(t[i])
        invariant
            q <= i <= t@.len(),
            label_run_end(t@, i as int, limit as int) == label_run_end(
                t@,
                q as int,
                limit as int,
            ),
        decreases t@.len() - i,
    {
        i = i + 1;
    }
    i
}

fn label_end_from(t: &Vec<char>, p: usize) -> (r: Option<usize>)
    requires
        p < t@.len(),
    ensures
        match label_end_at(t@, p as int) {
            Some(e) => r == Some(e as usize),
            None => r is None,
        },
{
    if t.len() - p > 1 && t[p] == '#' && label_char(t[p + 1]) {
        let limit = if t.len() - (p + 1) >= MAX_LABEL_CHARS {
            p + 1 + MAX_LABEL_CHARS
        } else {
            t.len()
        };
        proof {
            lemma_label_run_end_bounds(t@, p + 1, p + 1 + MAX_LABEL_CHARS);
            lemma_label_run_end_limit(t@, p + 1, limit as int, p + 1 + MAX_LABEL_CHARS);
        }
        Some(label_run_end_from(t, p + 1, limit))
    } else {
        None
    }
}

/// Cutting the limit at the end of the text does not change the run.
proof fn lemma_label_run_end_limit(t: Seq<char>, q: int, limit: int, far: int)
    requires
        0 <= q <= t.len(),
        limit <= far,
        limit == t.len() || limit == far,
    ensures
        label_run_end(t, q, limit) == label_run_end(t, q, far),
    decreases t.len() - q,
{
    if q < t.len() && q < limit && is_label_char(t[q]) {
        lemma_label_run_end_limit(t, q + 1, limit, far);
    }
}

fn span_inside_addresses(urls: &Vec<(usize, usize)>, s: usize, e: usize) -> (r: bool)
    ensures
        r == exists|i: int|
            0 <= i < urls@.len() && #[trigger] urls@[i].0 <= s && e <= urls@[i].1,
{
    let mut i: usize = 0;
    while i < urls.len()
        invariant
            i <= urls@.len(),
            forall|j: int| 0 <= j < i ==> !(#[trigger] urls@[j].0 <= s && e <= urls@[j].1),
        decreases urls@.len() - i,
    {
        if urls[i].0 <= s && e <= urls[i].1 {
            return true;
        }
        i = i + 1;
    }
    false
}

pub(crate) fn contains_string(v: &Vec<String>, s: &String) -> (r: bool)
    ensures
        r == v@.map_values(|x: String| x@).contains(s@),
{
    let ghost vv = v@.map_values(|x: String| x@);
    let mut i: usize = 0;
    while i < v.len()
        invariant
            i <= v@.len(),
            vv == v@.map_values(|x: String| x@),
            forall|j: int| 0 <= j < i ==> vv[j] != s@,
        decreases v@.len() - i,
    {
        if v[i] == *s {
            assert(vv[i as int] == s@);
            return true;
        }
        i = i + 1;
    }
    false
}

/// The labels written in `detail`: every `#tag` outside web addresses, once
/// each, in order of first occurrence.
pub fn parse_labels(detail: &str) -> (labels: Vec<String>)
    ensures
        labels@.map_values(|l: String| l@) == labels_of(detail@),
        forall|i: int, j: int| 0 <= i < j < labels@.len() ==> #[trigger] labels@[i]@ != #[trigger] labels@[j]@,
        forall|i: int|
            0 <= i < labels@.len() ==> is_valid_label(#[trigger] labels@[i]@) && written_with_hash(
                detail@,
                labels@[i]@,
            ),
{
    let t = chars_of(detail);
    let urls = find_address_spans(&t);
    let ghost keep = |span: (int, int)| !inside_address(t@, span);
    let ghost text_of = |span: (int, int)| label_text(t@, span);
    let mut out: Vec<String> = Vec::new();
    let ghost mut found: Seq<Seq<char>> = Seq::empty();
    let mut p: usize = 0;
    while p < t.len()
        invariant
            p <= t@.len(),
            t@ == detail@,
            spans_view(urls@) == address_spans(t@),
            keep == (|span: (int, int)| !inside_address(t@, span)),
            text_of == (|span: (int, int)| label_text(t@, span)),
            found + label_spans(t@, p as int).filter(keep).map_values(text_of) == label_spans(
                t@,
                0,
            ).filter(keep).map_values(text_of),
            out@.map_values(|l: String| l@) == found.remove_duplicates(Seq::empty()),
        decreases t@.len() - p,
    {
        match label_end_from(&t, p) {
            Some(e) => {
                proof {
                    lemma_label_run_end_bounds(t@, p + 1, p + 1 + MAX_LABEL_CHARS);
                    lemma_filter_cons((p as int, e as int), label_spans(t@, e as int), keep);
                }
                let ghost span = (p as int, e as int);
                let inside = span_inside_addresses(&urls, p, e);
                proof {
                    if inside {
                        let i = choose|i: int|
                            0 <= i < urls@.len() && #[trigger] urls@[i].0 <= p && e
                                <= urls@[i].1;
                        assert(spans_view(urls@)[i] == (urls@[i].0 as int, urls@[i].1 as int));
                        assert(inside_address(t@, span));
                    } else {
                        assert forall|i: int|
                            0 <= i < address_spans(t@).len() implies !(
                            #[trigger] address_spans(t@)[i].0 <= span.0 && span.1
                                <= address_spans(t@)[i].1) by {
                            assert(spans_view(urls@)[i] == (
                                urls@[i].0 as int,
                                urls@[i].1 as int,
                            ));
                        }
                        assert(!inside_address(t@, span));
                    }
                }
                if !inside {
                    let label = detail.substring_char(p + 1, e).to_owned();
                    assert(label@ == label_text(t@, span));
                    let seen = contains_string(&out, &label);
                    proof {
                        found.lemma_remove_duplicates_properties(Seq::empty());
                        found.lemma_remove_duplicates_append(label@, Seq::empty());
                        assert(found + Seq::<Seq<char>>::empty() =~= found);
                        assert((seq![span] + label_spans(t@, e as int).filter(keep)).map_values(
                            text_of,
                        ) =~= seq![label@] + label_spans(t@, e as int).filter(keep).map_values(
                            text_of,
                        ));
                        assert(found + (seq![label@] + label_spans(t@, e as int).filter(
                            keep,
                        ).map_values(text_of)) =~= (found + seq![label@]) + label_spans(
                            t@,
                            e as int,
                        ).filter(keep).map_values(text_of));
                        found = found + seq![label@];
                    }
                    if !seen {
                        let ghost before = out@;
                        out.push(label);
                        assert(out@.map_values(|l: String| l@) =~= before.map_values(
                            |l: String| l@,
                        ) + seq![label@]);
                    }
                }
                p = e;
            },
            None => {
                p = p + 1;
            },
        }
    }
    assert(label_spans(t@, p as int) =~= Seq::empty());
    assert(found + Seq::<(int, int)>::empty().filter(keep).map_values(text_of) =~= found);
    proof {
        let views = out@.map_values(|l: String| l@);
        lemma_labels_distinct(detail@);
        lemma_labels_are_written_tags(detail@);
        assert forall|i: int, j: int| 0 <= i < j < out@.len() implies #[trigger] out@[i]@
            != #[trigger] out@[j]@ by {
            assert(views[i] == out@[i]@ && views[j] == out@[j]@);
        }
        assert forall|i: int| 0 <= i < out@.len() implies is_valid_label(#[trigger] out@[i]@)
            && written_with_hash(detail@, out@[i]@) by {
            assert(views[i] == out@[i]@);
            assert(labels_of(detail@).contains(views[i]));
        }
    }
    out
}

/// A well-formed label: one to sixty label characters.
pub open spec fn is_valid_label(l: Seq<char>) -> bool {
    1 <= l.len() <= MAX_LABEL_CHARS && forall|i: int| 0 <= i < l.len() ==> is_label_char(l[i])
}

/// Whether `t` holds `#` immediately followed by `l`.
pub open spec fn written_with_hash(t: Seq<char>, l: Seq<char>) -> bool {
    exists|p: int|
        0 <= p && p + 1 + l.len() <= t.len() && #[trigger] t[p] == '#' && t.subrange(
            p + 1,
            p + 1 + l.len(),
        ) == l
}

proof fn lemma_remove_duplicates_distinct<A>(s: Seq<A>, seen: Seq<A>)
    requires
        seen.no_duplicates(),
    ensures
        s.remove_duplicates(seen).no_duplicates(),
    decreases s.len(),
{
    if s.len() > 0 {
        if seen.contains(s[0]) {
            lemma_remove_duplicates_distinct(s.skip(1), seen);
        } else {
            let next = seen + seq![s[0]];
            assert forall|i: int, j: int|
                0 <= i < next.len() && 0 <= j < next.len() && i != j implies next[i]
                != next[j] by {
                if i == seen.len() {
                    assert(seen.contains(next[j]));
                } else if j == seen.len() {
                    assert(seen.contains(next[i]));
                }
            }
            lemma_remove_duplicates_distinct(s.skip(1), next);
        }
    }
}

pub open spec fn label_span_ok(t: Seq<char>, span: (int, int)) -> bool {
    &&& 0 <= span.0
    &&& span.0 + 2 <= span.1 <= t.len()
    &&& span.1 <= span.0 + 1 + MAX_LABEL_CHARS
    &&& t[span.0] == '#'
    &&& forall|j: int| span.0 + 1 <= j < span.1 ==> is_label_char(t[j])
}

proof fn lemma_label_spans_well_formed(t: Seq<char>, p: int)
    requires
        0 <= p,
    ensures
        forall|i: int|
            0 <= i < label_spans(t, p).len() ==> label_span_ok(t, #[trigger] label_spans(t, p)[i]),
    decreases t.len() - p,
{
    if p < t.len() {
        match label_end_at(t, p) {
            Some(e) => {
                lemma_label_run_end_bounds(t, p + 1, p + 1 + MAX_LABEL_CHARS);
                lemma_label_run_end_bounds(t, p + 2, p + 1 + MAX_LABEL_CHARS);
                assert(e >= p + 2);
                lemma_label_spans_well_formed(t, e);
                assert(label_span_ok(t, (p, e)));
                assert(label_spans(t, p) == seq![(p, e)] + label_spans(t, e));
                assert forall|i: int| 0 <= i < label_spans(t, p).len() implies label_span_ok(
                    t,
                    #[trigger] label_spans(t, p)[i],
                ) by {
                    if i > 0 {
                        assert(label_spans(t, p)[i] == label_spans(t, e)[i - 1]);
                    }
                }
            },
            None => {
                lemma_label_spans_well_formed(t, p + 1);
                assert(label_spans(t, p) == label_spans(t, p + 1));
            },
        }
    } else {
        assert(label_spans(t, p).len() == 0);
    }
}

/// Each label comes out of `parse_labels` at most once.
pub proof fn lemma_labels_distinct(t: Seq<char>)
    ensures
        labels_of(t).no_duplicates(),
{
    let s = label_spans(t, 0).filter(|span: (int, int)| !inside_address(t, span)).map_values(
        |span: (int, int)| label_text(t, span),
    );
    lemma_remove_duplicates_distinct(s, Seq::empty());
}

/// Every label that comes out is well formed and stands in the text right
/// after a `#`.
pub proof fn lemma_labels_are_written_tags(t: Seq<char>)
    ensures
        forall|l: Seq<char>|
            #[trigger] labels_of(t).contains(l) ==> is_valid_label(l) && written_with_hash(t, l),
{
    let keep = |span: (int, int)| !inside_address(t, span);
    let spans = label_spans(t, 0);
    let kept = spans.filter(keep);
    let texts = kept.map_values(|span: (int, int)| label_text(t, span));
    lemma_label_spans_well_formed(t, 0);
    texts.lemma_remove_duplicates_properties(Seq::empty());
    assert forall|l: Seq<char>| #[trigger] labels_of(t).contains(l) implies is_valid_label(l)
        && written_with_hash(t, l) by {
        assert((texts + Seq::<Seq<char>>::empty()).contains(l));
        assert(texts + Seq::<Seq<char>>::empty() =~= texts);
        let k = choose|k: int| 0 <= k < texts.len() && texts[k] == l;
        let span = kept[k];
        spans.lemma_filter_contains_rev(keep, span);
        assert(kept.contains(span));
        let i = choose|i: int| 0 <= i < spans.len() && spans[i] == span;
        assert(t[span.0] == '#');
        assert(t.subrange(span.0 + 1, span.0 + 1 + l.len()) =~= l);
    }
}

} // verus!
