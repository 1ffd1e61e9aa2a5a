//! Stable insertion sort over a strict weak order, and the byte order of
//! strings (the order of `str`'s `<`).

use vstd::prelude::*;
use vstd::utf8::encode_utf8;
use vstd::multiset::Multiset;
use vstd::string::StringSliceAdditionalSpecFns;
use crate::wal::bytes_lt;

verus! {

broadcast use vstd::seq_lib::group_seq_properties, vstd::seq_lib::group_to_multiset_ensures;

/// A strict weak order with an executable test.
pub trait Ordered: Sized {
    /// Whether `self` sorts strictly before `other`.
    spec fn before(&self, other: &Self) -> bool;

    /// Nothing sorts before itself, and of two values at most one sorts
    /// before the other.
    proof fn lemma_before_asymmetric(a: &Self, b: &Self)
        ensures
            a.before(b) ==> !b.before(a);

    /// If neither `b` sorts before `a` nor `c` before `b`, then `c` does
    /// not sort before `a`.
    proof fn lemma_not_before_transitive(a: &Self, b: &Self, c: &Self)
        ensures
            !b.before(a) && !c.before(b) ==> !c.before(a);

    /// Whether `self` sorts strictly before `other`.
    fn is_before(&self, other: &Self) -> (r: bool)
        ensures
            r == self.before(other);
}

/// Where a stable insertion puts `x` into `r`: after the last element that
/// `x` does not sort before.
pub open spec fn insertion_point<T: Ordered>(r: Seq<T>, x: T) -> int
    decreases r.len(),
{
    if r.len() == 0 {
        0
    } else if x.before(&r.last()) {
        insertion_point(r.drop_last(), x)
    } else {
        r.len() as int
    }
}

/// `s` sorted stably: each element inserted in turn after every element it
/// does not sort before.
pub open spec fn sorted_stable<T: Ordered>(s: Seq<T>) -> Seq<T>
    decreases s.len(),
{
    if s.len() == 0 {
        seq![]
    } else {
        let r = sorted_stable(s.drop_last());
        r.insert(insertion_point(r, s.last()), s.last())
    }
}

/// No element sorts before an earlier one.
pub open spec fn is_sorted<T: Ordered>(s: Seq<T>) -> bool {
    forall|i: int, j: int| #![trigger s[i], s[j]] 0 <= i < j < s.len() ==> !s[j].before(&s[i])
}

proof fn lemma_insertion_point_bounds<T: Ordered>(r: Seq<T>, x: T)
    ensures
        0 <= insertion_point(r, x) <= r.len(),
        forall|k: int| insertion_point(r, x) <= k < r.len() ==> x.before(&#[trigger] r[k]),
        insertion_point(r, x) > 0 ==> !x.before(&r[insertion_point(r, x) - 1]),
    decreases r.len(),
{
    if r.len() > 0 && x.before(&r.last()) {
        lemma_insertion_point_bounds(r.drop_last(), x);
        assert forall|k: int| insertion_point(r, x) <= k < r.len() implies x.before(&#[trigger] r[k]) by {
            if k < r.len() - 1 {
                assert(r[k] == r.drop_last()[k]);
            }
        }
    }
}

proof fn lemma_insert_pair<T: Ordered>(r: Seq<T>, x: T, p: int, i: int, j: int)
    requires
        is_sorted(r),
        0 <= p <= r.len(),
        forall|k: int| p <= k < r.len() ==> x.before(&#[trigger] r[k]),
        p > 0 ==> !x.before(&r[p - 1]),
        0 <= i < j < r.len() + 1,
    ensures
        !r.insert(p, x)[j].before(&r.insert(p, x)[i]),
{
    let n = r.insert(p, x);
    r.insert_ensures(p, x);
    if j < p {
        assert(n[i] == r[i] && n[j] == r[j]);
    } else if j == p {
        assert(n[j] == x);
        assert(n[i] == r[i]);
        if i < p - 1 {
            assert(!r[p - 1].before(&r[i]));
            T::lemma_not_before_transitive(&r[i], &r[p - 1], &x);
        }
    } else if i == p {
        assert(n[i] == x);
        assert(n[j] == r[j - 1]);
        assert(x.before(&r[j - 1]));
        T::lemma_before_asymmetric(&x, &r[j - 1]);
    } else if i < p {
        assert(n[i] == r[i] && n[j] == r[j - 1]);
    } else {
        assert(n[i] == r[i - 1] && n[j] == r[j - 1]);
    }
}

proof fn lemma_insert_keeps_sorted<T: Ordered>(r: Seq<T>, x: T)
    requires
        is_sorted(r),
    ensures
        is_sorted(r.insert(insertion_point(r, x), x)),
{
    lemma_insertion_point_bounds(r, x);
    let p = insertion_point(r, x);
    let n = r.insert(p, x);
    r.insert_ensures(p, x);
    assert forall|i: int, j: int| #![trigger n[i], n[j]] 0 <= i < j < n.len() implies !n[j].before(&n[i]) by {
        lemma_insert_pair(r, x, p, i, j);
    }
}

/// The stable sort of `s` is sorted and holds the same elements.
pub proof fn lemma_sorted_stable<T: Ordered>(s: Seq<T>)
    ensures
        is_sorted(sorted_stable(s)),
        sorted_stable(s).to_multiset() == s.to_multiset(),
        sorted_stable(s).len() == s.len(),
    decreases s.len(),
{
    if s.len() > 0 {
        let d = s.drop_last();
        lemma_sorted_stable(d);
        let r = sorted_stable(d);
        lemma_insertion_point_bounds(r, s.last());
        lemma_insert_keeps_sorted(r, s.last());
        vstd::seq_lib::to_multiset_insert(r, insertion_point(r, s.last()), s.last());
        assert(d.push(s.last()) =~= s);
    } else {
        assert(s.to_multiset() =~= Multiset::empty());
        assert(sorted_stable(s).to_multiset() =~= Multiset::empty());
    }
}

/// Sorts `v` stably.
pub fn sort_stable<T: Ordered>(v: Vec<T>) -> (r: Vec<T>)
    ensures
        r@ == sorted_stable(v@),
        is_sorted(r@),
        r@.to_multiset() == v@.to_multiset(),
{
    let ghost s = v@;
    let n: usize = v.len();
    let mut rest = v;
    let mut out: Vec<T> = Vec::new();
    let mut i: usize = 0;
    assert(s.take(0) =~= seq![]);
    assert(s.skip(0) =~= s);
    while i < n
        invariant
            n == s.len(),
            i <= n,
            rest@ == s.skip(i as int),
            out@ == sorted_stable(s.take(i as int)),
        decreases n - i,
    {
        let x = rest.remove(0);
        assert(x == s[i as int]);
        assert(rest@ =~= s.skip(i + 1));
        let mut p: usize = out.len();
        while p > 0 && x.is_before(&out[p - 1])
            invariant
                p <= out@.len(),
                insertion_point(out@, x) == insertion_point(out@.take(p as int), x),
            decreases p,
        {
            proof {
                let t = out@.take(p as int);
                assert(t.drop_last() =~= out@.take(p - 1));
                assert(t.last() == out@[p - 1]);
            }
            p = p - 1;
        }
        proof {
            let t = out@.take(p as int);
            if p > 0 {
                assert(t.last() == out@[p - 1]);
            }
            assert(insertion_point(t, x) == p);
        }
        proof {
            let t = s.take(i + 1);
            assert(t.drop_last() =~= s.take(i as int));
            assert(t.last() == x);
        }
        out.insert(p, x);
        i = i + 1;
    }
    assert(s.take(n as int) =~= s);
    proof {
        lemma_sorted_stable(s);
    }
    out
}

/// Byte order of texts: the order of `str`'s `<` (UTF-8 bytes compared
/// lexicographically).
pub open spec fn text_lt(a: Seq<char>, b: Seq<char>) -> bool {
    bytes_lt(encode_utf8(a), encode_utf8(b))
}

/// `bytes_lt` is asymmetric.
pub proof fn lemma_bytes_lt_asymmetric(a: Seq<u8>, b: Seq<u8>)
    ensures
        bytes_lt(a, b) ==> !bytes_lt(b, a),
    decreases a.len(),
{
    if a.len() > 0 && b.len() > 0 && a[0] == b[0] {
        lemma_bytes_lt_asymmetric(a.drop_first(), b.drop_first());
    }
}

/// Two byte strings neither of which sorts before the other are equal.
pub proof fn lemma_bytes_lt_total(a: Seq<u8>, b: Seq<u8>)
    ensures
        !bytes_lt(a, b) && !bytes_lt(b, a) ==> a == b,
    decreases a.len(),
{
    if a.len() > 0 && b.len() > 0 && a[0] == b[0] {
        lemma_bytes_lt_total(a.drop_first(), b.drop_first());
        if !bytes_lt(a, b) && !bytes_lt(b, a) {
            assert(a =~= seq![a[0]] + a.drop_first());
            assert(b =~= seq![b[0]] + b.drop_first());
        }
    } else if a.len() == 0 && b.len() == 0 {
        assert(a =~= b);
    }
}

/// `bytes_lt` is transitive.
pub proof fn lemma_bytes_lt_transitive(a: Seq<u8>, b: Seq<u8>, c: Seq<u8>)
    ensures
        bytes_lt(a, b) && bytes_lt(b, c) ==> bytes_lt(a, c),
    decreases a.len(),
{
    if a.len() > 0 && b.len() > 0 && c.len() > 0 && a[0] == b[0] && b[0] == c[0] {
        lemma_bytes_lt_transitive(a.drop_first(), b.drop_first(), c.drop_first());
    }
}

/// `!bytes_lt` is transitive.
pub proof fn lemma_bytes_le_transitive(a: Seq<u8>, b: Seq<u8>, c: Seq<u8>)
    ensures
        !bytes_lt(b, a) && !bytes_lt(c, b) ==> !bytes_lt(c, a),
{
    lemma_bytes_lt_total(a, b);
    lemma_bytes_lt_total(b, c);
    lemma_bytes_lt_transitive(c, a, b);
    lemma_bytes_lt_transitive(b, c, a);
    lemma_bytes_lt_asymmetric(a, b);
    lemma_bytes_lt_asymmetric(b, c);
}

/// Whether the bytes of `a` sort before those of `b`.
pub fn slice_bytes_less(a: &[u8], b: &[u8]) -> (r: bool)
    ensures
        r == bytes_lt(a@, b@),
{
    let n: usize = a.len();
    let m: usize = b.len();
    let mut i: usize = 0;
    while i < n && i < m
        invariant
            n == a@.len(),
            m == b@.len(),
            i <= n,
            i <= m,
            bytes_lt(a@, b@) == bytes_lt(a@.skip(i as int), b@.skip(i as int)),
        decreases n - i,
    {
        let x = a[i];
        let y = b[i];
        if x != y {
            return x < y;
        }
        assert(a@.skip(i as int).drop_first() =~= a@.skip(i + 1));
        assert(b@.skip(i as int).drop_first() =~= b@.skip(i + 1));
        i = i + 1;
    }
    i == n && i < m
}

/// Whether `a` sorts before `b` in byte order.
pub fn text_less(a: &str, b: &str) -> (r: bool)
    ensures
        r == text_lt(a@, b@),
{
    slice_bytes_less(a.as_bytes(), b.as_bytes())
}

impl Ordered for String {
    open spec fn before(&self, other: &Self) -> bool {
        text_lt(self@, other@)
    }

    proof fn lemma_before_asymmetric(a: &Self, b: &Self) {
        lemma_bytes_lt_asymmetric(encode_utf8(a@), encode_utf8(b@));
    }

    proof fn lemma_not_before_transitive(a: &Self, b: &Self, c: &Self) {
        lemma_bytes_le_transitive(encode_utf8(a@), encode_utf8(b@), encode_utf8(c@));
    }

    fn is_before(&self, other: &Self) -> (r: bool) {
        text_less(self.as_str(), other.as_str())
    }
}

/// Sorts strings in byte order, as `Vec<String>::sort` does.
pub fn sort_strings(v: Vec<String>) -> (r: Vec<String>)
    ensures
        r@ == sorted_stable(v@),
        is_sorted(r@),
        r@.to_multiset() == v@.to_multiset(),
{
    sort_stable(v)
}

} // verus!
