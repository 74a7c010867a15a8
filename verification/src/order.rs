//! Orders of rows: the byte order of stored text, and sorting of rows by an
//! order given as a total preorder.

use vstd::prelude::*;

use crate::text::chars_of;

verus! {

/// `a` sorts no later than `b` in the byte order of their UTF-8 encodings,
/// which is the order of their code points.
pub open spec fn text_le(a: Seq<char>, b: Seq<char>) -> bool
    decreases a.len(),
{
    if a.len() == 0 {
        true
    } else if b.len() == 0 {
        false
    } else if a[0] < b[0] {
        true
    } else if a[0] > b[0] {
        false
    } else {
        text_le(a.drop_first(), b.drop_first())
    }
}

/// `a` sorts strictly before `b`.
pub open spec fn text_lt(a: Seq<char>, b: Seq<char>) -> bool {
    text_le(a, b) && a != b
}

pub proof fn lemma_text_le_total(a: Seq<char>, b: Seq<char>)
    ensures
        text_le(a, b) || text_le(b, a),
    decreases a.len(),
{
    if a.len() > 0 && b.len() > 0 && a[0] == b[0] {
        lemma_text_le_total(a.drop_first(), b.drop_first());
    }
}

pub proof fn lemma_text_le_transitive(a: Seq<char>, b: Seq<char>, c: Seq<char>)
    requires
        text_le(a, b),
        text_le(b, c),
    ensures
        text_le(a, c),
    decreases a.len(),
{
    if a.len() > 0 && b.len() > 0 && c.len() > 0 && a[0] == b[0] && b[0] == c[0] {
        lemma_text_le_transitive(a.drop_first(), b.drop_first(), c.drop_first());
    }
}

pub proof fn lemma_text_le_antisymmetric(a: Seq<char>, b: Seq<char>)
    requires
        text_le(a, b),
        text_le(b, a),
    ensures
        a == b,
    decreases a.len(),
{
    if a.len() > 0 && b.len() > 0 {
        lemma_text_le_antisymmetric(a.drop_first(), b.drop_first());
        assert(a =~= seq![a[0]] + a.drop_first());
        assert(b =~= seq![b[0]] + b.drop_first());
    }
}

/// `a` sorts strictly before `b` exactly when `b` does not sort before `a`.
pub proof fn lemma_text_lt_not_le(a: Seq<char>, b: Seq<char>)
    ensures
        text_lt(a, b) <==> !text_le(b, a),
{
    lemma_text_le_total(a, b);
    lemma_text_le_reflexive(a);
    if text_le(a, b) && text_le(b, a) {
        lemma_text_le_antisymmetric(a, b);
    }
}

pub proof fn lemma_text_le_reflexive(a: Seq<char>)
    ensures
        text_le(a, a),
    decreases a.len(),
{
    if a.len() > 0 {
        lemma_text_le_reflexive(a.drop_first());
    }
}

/// Compares two texts in the byte order of their encodings.
pub fn text_le_exec(a: &str, b: &str) -> (r: bool)
    ensures
        r == text_le(a@, b@),
{
    let x = chars_of(a);
    let y = chars_of(b);
    let mut i: usize = 0;
    assert(x@.skip(0) =~= x@);
    assert(y@.skip(0) =~= y@);
    while i < x.len() && i < y.len() && x[i] == y[i]
        invariant
            i <= x@.len(),
            i <= y@.len(),
            text_le(x@.skip(i as int), y@.skip(i as int)) == text_le(a@, b@),
            x@ == a@,
            y@ == b@,
        decreases x@.len() - i,
    {
        assert(x@.skip(i as int).drop_first() =~= x@.skip(i + 1));
        assert(y@.skip(i as int).drop_first() =~= y@.skip(i + 1));
        i = i + 1;
    }
    if i == x.len() {
        true
    } else if i == y.len() {
        false
    } else {
        x[i] < y[i]
    }
}

/// A total preorder on rows, by which lists are sorted.
pub trait RowOrder<T> {
    /// `a` may come before `b`.
    spec fn before(a: T, b: T) -> bool;

    proof fn lemma_total(a: T, b: T)
        ensures
            Self::before(a, b) || Self::before(b, a),
    ;

    proof fn lemma_transitive(a: T, b: T, c: T)
        requires
            Self::before(a, b),
            Self::before(b, c),
        ensures
            Self::before(a, c),
    ;

    fn le(a: &T, b: &T) -> (r: bool)
        ensures
            r == Self::before(*a, *b),
    ;
}

/// Every row may come before every later one.
pub open spec fn sorted_rows<T, O: RowOrder<T>>(s: Seq<T>) -> bool {
    forall|i: int, j: int| 0 <= i < j < s.len() ==> #[trigger] O::before(s[i], s[j])
}

proof fn lemma_insert_to_multiset<T>(s: Seq<T>, k: int, x: T)
    requires
        0 <= k <= s.len(),
    ensures
        s.insert(k, x).to_multiset() =~= s.to_multiset().insert(x),
{
    broadcast use vstd::seq_lib::group_to_multiset_ensures;

    let t = s.insert(k, x);
    assert(t.remove(k) =~= s);
    assert(t[k] == x);
    assert(t.remove(k).to_multiset() =~= t.to_multiset().remove(x));
    assert(t.to_multiset().count(x) > 0) by {
        assert(t.contains(x));
    }
}

/// The rows sorted by the order `O`: the same rows, each one allowed to
/// come before the next.
pub fn sort_rows<T, O: RowOrder<T>>(v: Vec<T>) -> (r: Vec<T>)
    ensures
        sorted_rows::<T, O>(r@),
        r@.to_multiset() =~= v@.to_multiset(),
{
    broadcast use vstd::seq_lib::group_to_multiset_ensures;

    let ghost given = v@;
    let mut rest = v;
    let mut out: Vec<T> = Vec::new();
    while rest.len() > 0
        invariant
            sorted_rows::<T, O>(out@),
            out@.to_multiset().add(rest@.to_multiset()) =~= given.to_multiset(),
        decreases rest@.len(),
    {
        let ghost before_pop = rest@;
        let x = rest.pop().unwrap();
        assert(before_pop =~= rest@.push(x));
        proof {
            rest@.to_multiset_ensures();
        }
        assert(before_pop.to_multiset() =~= rest@.to_multiset().insert(x));
        let mut k: usize = 0;
        while k < out.len() && !O::le(&x, &out[k])
            invariant
                k <= out@.len(),
                forall|j: int| 0 <= j < k ==> O::before(#[trigger] out@[j], x),
            decreases out@.len() - k,
        {
            proof {
                O::lemma_total(x, out@[k as int]);
            }
            k = k + 1;
        }
        let ghost old_out = out@;
        proof {
            lemma_insert_to_multiset(old_out, k as int, x);
        }
        out.insert(k, x);
        assert forall|i: int, j: int| 0 <= i < j < out@.len() implies #[trigger] O::before(
            out@[i],
            out@[j],
        ) by {
            if j < k {
            } else if j == k {
            } else if i < k {
                assert(O::before(old_out[i], old_out[j - 1]));
            } else if i == k {
                if j - 1 > k {
                    assert(O::before(old_out[k as int], old_out[j - 1]));
                    O::lemma_transitive(x, old_out[k as int], old_out[j - 1]);
                }
            } else {
                assert(O::before(old_out[i - 1], old_out[j - 1]));
            }
        }
    }
    assert(rest@ =~= Seq::<T>::empty());
    out
}

/// Two rows of a sequence equal as values make that value occur twice.
proof fn lemma_two_copies<T>(s: Seq<T>, i: int, j: int)
    requires
        0 <= i < j < s.len(),
        s[i] == s[j],
    ensures
        s.to_multiset().count(s[i]) >= 2,
{
    broadcast use vstd::seq_lib::group_to_multiset_ensures;

    let rest = s.remove(i);
    s.remove_ensures(i);
    assert(rest[j - 1] == s[j]);
    assert(rest.contains(s[i]));
    assert(rest.to_multiset() =~= s.to_multiset().remove(s[i]));
    assert(rest.to_multiset().count(s[i]) > 0);
}

/// Rearranging rows keeps apart what a key function told apart.
pub proof fn lemma_rearranged_keys_distinct<T, K>(r: Seq<T>, v: Seq<T>, key: spec_fn(T) -> K)
    requires
        r.to_multiset() =~= v.to_multiset(),
        forall|i: int, j: int| 0 <= i < j < v.len() ==> key(#[trigger] v[i]) != key(#[trigger] v[j]),
    ensures
        forall|i: int, j: int| 0 <= i < j < r.len() ==> key(#[trigger] r[i]) != key(#[trigger] r[j]),
{
    broadcast use vstd::seq_lib::group_to_multiset_ensures;

    assert(v.no_duplicates()) by {
        assert forall|i: int, j: int| 0 <= i < v.len() && 0 <= j < v.len() && i != j implies v[i]
            != v[j] by {
            if i < j {
                assert(key(v[i]) != key(v[j]));
            } else {
                assert(key(v[j]) != key(v[i]));
            }
        }
    }
    v.lemma_multiset_has_no_duplicates();
    assert forall|i: int, j: int| 0 <= i < j < r.len() implies key(#[trigger] r[i]) != key(
        #[trigger] r[j],
    ) by {
        if key(r[i]) == key(r[j]) {
            assert(r.contains(r[i]));
            assert(r.contains(r[j]));
            assert(v.to_multiset().count(r[i]) > 0);
            assert(v.to_multiset().count(r[j]) > 0);
            assert(v.contains(r[i]));
            assert(v.contains(r[j]));
            let a = choose|a: int| 0 <= a < v.len() && v[a] == r[i];
            let b = choose|b: int| 0 <= b < v.len() && v[b] == r[j];
            if a < b {
                assert(key(v[a]) != key(v[b]));
            } else if b < a {
                assert(key(v[b]) != key(v[a]));
            }
            lemma_two_copies(r, i, j);
            assert(v.to_multiset().contains(r[i]));
        }
    }
}

} // verus!
