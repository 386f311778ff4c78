//! The orders in which the board lists its rows, and a sort that puts rows in
//! such an order.
use vstd::prelude::*;
use vstd::multiset::Multiset;
use crate::model::views;

verus! {

// ---------------------------------------------------------------------------
// Text order
// ---------------------------------------------------------------------------

/// Character-by-character order of text, a proper prefix first. This is the
/// order of the UTF-8 bytes, since UTF-8 keeps the order of code points.
pub open spec fn text_lt(a: Seq<char>, b: Seq<char>) -> bool
    decreases a.len(),
{
    if a.len() == 0 {
        b.len() > 0
    } else if b.len() == 0 {
        false
    } else if a[0] != b[0] {
        a[0] < b[0]
    } else {
        text_lt(a.subrange(1, a.len() as int), b.subrange(1, b.len() as int))
    }
}

pub proof fn lemma_text_lt_transitive(a: Seq<char>, b: Seq<char>, c: Seq<char>)
    requires
        text_lt(a, b),
        text_lt(b, c),
    ensures
        text_lt(a, c),
    decreases a.len(),
{
    if a.len() > 0 && b.len() > 0 && c.len() > 0 {
        if a[0] == b[0] && b[0] == c[0] {
            lemma_text_lt_transitive(
                a.subrange(1, a.len() as int),
                b.subrange(1, b.len() as int),
                c.subrange(1, c.len() as int),
            );
        }
    }
}

pub proof fn lemma_text_lt_irreflexive(a: Seq<char>)
    ensures
        !text_lt(a, a),
    decreases a.len(),
{
    if a.len() > 0 {
        lemma_text_lt_irreflexive(a.subrange(1, a.len() as int));
    }
}

/// Of two different texts, one comes first.
pub proof fn lemma_text_lt_total(a: Seq<char>, b: Seq<char>)
    ensures
        a != b ==> text_lt(a, b) || text_lt(b, a),
        !(text_lt(a, b) && text_lt(b, a)),
    decreases a.len(),
{
    if a.len() > 0 && b.len() > 0 {
        lemma_text_lt_total(a.subrange(1, a.len() as int), b.subrange(1, b.len() as int));
        if a[0] == b[0] && a != b {
            assert(a.subrange(1, a.len() as int) != b.subrange(1, b.len() as int)) by {
                if a.subrange(1, a.len() as int) == b.subrange(1, b.len() as int) {
                    assert forall|k: int| 0 <= k < a.len() implies a[k] == b[k] by {
                        if k > 0 {
                            assert(a[k] == a.subrange(1, a.len() as int)[k - 1]);
                            assert(b[k] == b.subrange(1, b.len() as int)[k - 1]);
                        }
                    }
                    assert(a =~= b);
                }
            }
        }
    } else if a.len() == 0 && b.len() == 0 {
        assert(a =~= b);
    }
}

/// Whether `a` comes before `b` in text order.
pub fn text_less(a: &str, b: &str) -> (r: bool)
    ensures
        r == text_lt(a@, b@),
{
    let n = a.unicode_len();
    let m = b.unicode_len();
    let mut i: usize = 0;
    assert(a@.subrange(0, n as int) =~= a@);
    assert(b@.subrange(0, m as int) =~= b@);
    while i < n && i < m
        invariant
            n == a@.len(),
            m == b@.len(),
            i <= n,
            i <= m,
            text_lt(a@, b@) == text_lt(a@.subrange(i as int, n as int), b@.subrange(i as int, m as int)),
        decreases n - i,
    {
        let x = a.get_char(i);
        let y = b.get_char(i);
        let ghost sa = a@.subrange(i as int, n as int);
        let ghost sb = b@.subrange(i as int, m as int);
        assert(sa[0] == x);
        assert(sb[0] == y);
        if x != y {
            return x < y;
        }
        assert(sa.subrange(1, sa.len() as int) =~= a@.subrange(i + 1, n as int));
        assert(sb.subrange(1, sb.len() as int) =~= b@.subrange(i + 1, m as int));
        i = i + 1;
    }
    i < m
}

// ---------------------------------------------------------------------------
// Row orders and sorting
// ---------------------------------------------------------------------------

/// A type whose rows are listed in a fixed order.
pub trait RowOrder: View + Sized {
    /// Whether a row with view `a` is listed before one with view `b`.
    spec fn row_before(a: Self::V, b: Self::V) -> bool;

    proof fn lemma_row_before_irreflexive(a: Self::V)
        ensures
            !Self::row_before(a, a),
    ;

    proof fn lemma_row_before_transitive(a: Self::V, b: Self::V, c: Self::V)
        requires
            Self::row_before(a, b),
            Self::row_before(b, c),
        ensures
            Self::row_before(a, c),
    ;

    fn before(&self, other: &Self) -> (r: bool)
        ensures
            r == Self::row_before(self@, other@),
    ;

    fn copy_row(&self) -> (r: Self)
        ensures
            r@ == self@,
    ;
}

/// No row of `s` is listed before a row that precedes it in `s`.
pub open spec fn rows_sorted<T: RowOrder>(s: Seq<T::V>) -> bool {
    forall|i: int, j: int| 0 <= i < j < s.len() ==> !T::row_before(#[trigger] s[j], #[trigger] s[i])
}

pub proof fn lemma_views_remove<T: View>(s: Seq<T>, i: int)
    requires
        0 <= i < s.len(),
    ensures
        views(s.remove(i)) == views(s).remove(i),
{
    assert(views(s.remove(i)) =~= views(s).remove(i));
}

pub proof fn lemma_views_push<T: View>(s: Seq<T>, x: T)
    ensures
        views(s.push(x)) == views(s).push(x@),
{
    assert(views(s.push(x)) =~= views(s).push(x@));
}

/// The rows of `v` in the order of `T`.
pub fn sort_rows<T: RowOrder>(v: Vec<T>) -> (r: Vec<T>)
    ensures
        rows_sorted::<T>(views(r@)),
        views(r@).to_multiset() == views(v@).to_multiset(),
        r@.len() == v@.len(),
{
    let ghost all = views(v@).to_multiset();
    let mut rest = v;
    let mut out: Vec<T> = Vec::new();
    proof {
        assert(views(out@) =~= Seq::<T::V>::empty());
        broadcast use vstd::seq_lib::group_to_multiset_ensures;
        assert(views(out@).to_multiset() =~= Multiset::<T::V>::empty());
    }
    while rest.len() > 0
        invariant
            views(out@).to_multiset().add(views(rest@).to_multiset()) == all,
            rows_sorted::<T>(views(out@)),
            forall|i: int, j: int|
                0 <= i < out@.len() && 0 <= j < rest@.len() ==> !T::row_before(
                    #[trigger] rest@[j]@,
                    #[trigger] out@[i]@,
                ),
            out@.len() + rest@.len() == v@.len(),
        decreases rest.len(),
    {
        let mut m: usize = 0;
        let mut k: usize = 0;
        while k < rest.len()
            invariant
                m < rest.len(),
                k <= rest.len(),
                forall|j: int| 0 <= j < k ==> !T::row_before(#[trigger] rest@[j]@, rest@[m as int]@),
            decreases rest.len() - k,
        {
            if rest[k].before(&rest[m]) {
                proof {
                    assert forall|j: int| 0 <= j < k + 1 implies !T::row_before(
                        #[trigger] rest@[j]@,
                        rest@[k as int]@,
                    ) by {
                        T::lemma_row_before_irreflexive(rest@[k as int]@);
                        if j < k && T::row_before(rest@[j]@, rest@[k as int]@) {
                            T::lemma_row_before_transitive(
                                rest@[j]@,
                                rest@[k as int]@,
                                rest@[m as int]@,
                            );
                        }
                    }
                }
                m = k;
            }
            k = k + 1;
        }
        let ghost old_rest = rest@;
        let ghost old_out = out@;
        let x = rest.remove(m);
        out.push(x);
        proof {
            lemma_views_remove(old_rest, m as int);
            lemma_views_push(old_out, x);
            vstd::seq_lib::to_multiset_remove(views(old_rest), m as int);
            vstd::seq_lib::to_multiset_build(views(old_out), x@);
            assert(views(old_rest)[m as int] == x@);
            broadcast use vstd::seq_lib::group_to_multiset_ensures;
            broadcast use vstd::multiset::group_multiset_axioms;
            assert(views(old_rest).contains(x@));
            assert(views(old_rest).to_multiset().count(x@) > 0);
            assert(views(out@).to_multiset().add(views(rest@).to_multiset()) =~= all);
            assert forall|i: int, j: int|
                0 <= i < out@.len() && 0 <= j < rest@.len() implies !T::row_before(
                #[trigger] rest@[j]@,
                #[trigger] out@[i]@,
            ) by {
                let jj = if j < m { j } else { j + 1 };
                assert(rest@[j] == old_rest[jj]);
                if i < old_out.len() {
                    assert(out@[i] == old_out[i]);
                }
            }
            assert forall|i: int, j: int|
                0 <= i < j < views(out@).len() implies !T::row_before(
                #[trigger] views(out@)[j],
                #[trigger] views(out@)[i],
            ) by {
                assert(views(out@)[i] == out@[i]@);
                assert(views(out@)[j] == out@[j]@);
                if j < old_out.len() {
                    assert(out@[i] == old_out[i]);
                    assert(out@[j] == old_out[j]);
                    assert(views(old_out)[i] == old_out[i]@);
                    assert(views(old_out)[j] == old_out[j]@);
                } else {
                    assert(out@[i] == old_out[i]);
                    assert(old_rest[m as int] == x);
                }
            }
        }
    }
    proof {
        assert(views(rest@) =~= Seq::<T::V>::empty());
        broadcast use vstd::seq_lib::group_to_multiset_ensures;
        assert(views(rest@).to_multiset() =~= Multiset::<T::V>::empty());
        assert(views(out@).to_multiset().add(Multiset::<T::V>::empty()) =~= views(out@).to_multiset());
    }
    out
}

/// A copy of every row of `v`, in the same order.
pub fn copy_rows<T: RowOrder>(v: &Vec<T>) -> (r: Vec<T>)
    ensures
        views(r@) == views(v@),
        r@.len() == v@.len(),
{
    let mut r: Vec<T> = Vec::new();
    let mut i: usize = 0;
    while i < v.len()
        invariant
            i <= v.len(),
            r@.len() == i,
            views(r@) == views(v@.subrange(0, i as int)),
        decreases v.len() - i,
    {
        let x = v[i].copy_row();
        let ghost old_r = r@;
        r.push(x);
        proof {
            lemma_views_push(old_r, x);
            assert(v@.subrange(0, i + 1) =~= v@.subrange(0, i as int).push(v@[i as int]));
            lemma_views_push(v@.subrange(0, i as int), v@[i as int]);
        }
        i = i + 1;
    }
    assert(v@.subrange(0, v@.len() as int) =~= v@);
    r
}

/// The rows of `v` copied and put in the order of `T`.
pub fn sorted_copy<T: RowOrder>(v: &Vec<T>) -> (r: Vec<T>)
    ensures
        rows_sorted::<T>(views(r@)),
        views(r@).to_multiset() == views(v@).to_multiset(),
        r@.len() == v@.len(),
{
    let c = copy_rows(v);
    sort_rows(c)
}

} // verus!
