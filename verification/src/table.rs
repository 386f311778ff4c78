//! Tables of rows with a text key: finding a row by its key, and the three
//! ways a row is written (insert or replace, insert or ignore, update in
//! place).
use vstd::prelude::*;
use crate::model::views;
use crate::order::{lemma_views_push, lemma_views_remove};

verus! {

/// A row with a text key that no other row of its table shares.
pub trait Keyed: View + Sized {
    spec fn key_of(v: Self::V) -> Seq<char>;

    fn key(&self) -> (r: &str)
        ensures
            r@ == Self::key_of(self@),
    ;
}

/// The index of the row with key `k`, looking from the end, or `-1`.
pub open spec fn key_index<T: Keyed>(rows: Seq<T::V>, k: Seq<char>) -> int
    decreases rows.len(),
{
    if rows.len() == 0 {
        -1
    } else if T::key_of(rows.last()) == k {
        rows.len() - 1
    } else {
        key_index::<T>(rows.drop_last(), k)
    }
}

/// Whether some row has key `k`.
pub open spec fn has_key<T: Keyed>(rows: Seq<T::V>, k: Seq<char>) -> bool {
    exists|i: int| 0 <= i < rows.len() && T::key_of(#[trigger] rows[i]) == k
}

/// No two rows share a key.
pub open spec fn keys_distinct<T: Keyed>(rows: Seq<T::V>) -> bool {
    forall|i: int, j: int|
        0 <= i < rows.len() && 0 <= j < rows.len() && i != j ==> T::key_of(#[trigger] rows[i])
            != T::key_of(#[trigger] rows[j])
}

/// `INSERT OR REPLACE`: the row with the same key leaves, and `row` is added
/// at the end.
pub open spec fn replace_spec<T: Keyed>(rows: Seq<T::V>, row: T::V) -> Seq<T::V> {
    let i = key_index::<T>(rows, T::key_of(row));
    if i >= 0 {
        rows.remove(i).push(row)
    } else {
        rows.push(row)
    }
}

/// `INSERT OR IGNORE`: `row` is added at the end unless its key is taken.
pub open spec fn ignore_spec<T: Keyed>(rows: Seq<T::V>, row: T::V) -> Seq<T::V> {
    if key_index::<T>(rows, T::key_of(row)) >= 0 {
        rows
    } else {
        rows.push(row)
    }
}

/// `INSERT ... ON CONFLICT DO UPDATE`: the row with the same key is rewritten
/// where it stands, or `row` is added at the end.
pub open spec fn upsert_spec<T: Keyed>(rows: Seq<T::V>, row: T::V) -> Seq<T::V> {
    let i = key_index::<T>(rows, T::key_of(row));
    if i >= 0 {
        rows.update(i, row)
    } else {
        rows.push(row)
    }
}

/// Each row of `rows` written by `replace_spec` in turn.
pub open spec fn replace_all_spec<T: Keyed>(table: Seq<T::V>, rows: Seq<T::V>) -> Seq<T::V>
    decreases rows.len(),
{
    if rows.len() == 0 {
        table
    } else {
        replace_spec::<T>(replace_all_spec::<T>(table, rows.drop_last()), rows.last())
    }
}

/// Each row of `rows` written by `ignore_spec` in turn.
pub open spec fn ignore_all_spec<T: Keyed>(table: Seq<T::V>, rows: Seq<T::V>) -> Seq<T::V>
    decreases rows.len(),
{
    if rows.len() == 0 {
        table
    } else {
        ignore_spec::<T>(ignore_all_spec::<T>(table, rows.drop_last()), rows.last())
    }
}

pub proof fn lemma_key_index<T: Keyed>(rows: Seq<T::V>, k: Seq<char>)
    ensures
        -1 <= key_index::<T>(rows, k) < rows.len(),
        key_index::<T>(rows, k) >= 0 ==> T::key_of(rows[key_index::<T>(rows, k)]) == k,
        key_index::<T>(rows, k) == -1 <==> !has_key::<T>(rows, k),
        keys_distinct::<T>(rows) ==> forall|j: int|
            0 <= j < rows.len() && T::key_of(#[trigger] rows[j]) == k ==> j == key_index::<T>(
                rows,
                k,
            ),
    decreases rows.len(),
{
    if rows.len() > 0 {
        lemma_key_index::<T>(rows.drop_last(), k);
        if T::key_of(rows.last()) != k {
            if has_key::<T>(rows, k) {
                let j = choose|j: int| 0 <= j < rows.len() && T::key_of(#[trigger] rows[j]) == k;
                assert(rows.drop_last()[j] == rows[j]);
            }
            if has_key::<T>(rows.drop_last(), k) {
                let j = choose|j: int|
                    0 <= j < rows.drop_last().len() && T::key_of(#[trigger] rows.drop_last()[j])
                        == k;
                assert(rows[j] == rows.drop_last()[j]);
            }
            if keys_distinct::<T>(rows) {
                assert(keys_distinct::<T>(rows.drop_last())) by {
                    assert forall|i: int, j: int|
                        0 <= i < rows.drop_last().len() && 0 <= j < rows.drop_last().len() && i
                            != j implies T::key_of(#[trigger] rows.drop_last()[i]) != T::key_of(
                        #[trigger] rows.drop_last()[j],
                    ) by {
                        assert(rows.drop_last()[i] == rows[i]);
                        assert(rows.drop_last()[j] == rows[j]);
                    }
                }
                assert forall|j: int|
                    0 <= j < rows.len() && T::key_of(#[trigger] rows[j]) == k implies j
                    == key_index::<T>(rows, k) by {
                    assert(rows.drop_last()[j] == rows[j]);
                }
            }
        } else {
            assert(has_key::<T>(rows, k)) by {
                assert(T::key_of(rows[rows.len() - 1]) == k);
            }
        }
    } else {
        assert(!has_key::<T>(rows, k));
    }
}

/// The index of the row with key `k`.
pub fn find_key<T: Keyed>(rows: &Vec<T>, k: &str) -> (r: Option<usize>)
    ensures
        match r {
            Some(i) => i == key_index::<T>(views(rows@), k@),
            None => key_index::<T>(views(rows@), k@) == -1,
        },
{
    let mut j: usize = rows.len();
    assert(rows@.subrange(0, j as int) =~= rows@);
    while j > 0
        invariant
            j <= rows.len(),
            key_index::<T>(views(rows@), k@) == key_index::<T>(
                views(rows@.subrange(0, j as int)),
                k@,
            ),
        decreases j,
    {
        let ghost pre = views(rows@.subrange(0, j as int));
        assert(pre.last() == rows@[j - 1]@);
        assert(pre.drop_last() =~= views(rows@.subrange(0, j - 1)));
        if crate::text::text_eq(rows[j - 1].key(), k) {
            return Some(j - 1);
        }
        j = j - 1;
    }
    None
}

pub proof fn lemma_replace_distinct<T: Keyed>(rows: Seq<T::V>, row: T::V)
    requires
        keys_distinct::<T>(rows),
    ensures
        keys_distinct::<T>(replace_spec::<T>(rows, row)),
        replace_spec::<T>(rows, row).len() == rows.len() + (if has_key::<T>(rows, T::key_of(row)) {
            0int
        } else {
            1int
        }),
{
    lemma_key_index::<T>(rows, T::key_of(row));
    let i = key_index::<T>(rows, T::key_of(row));
    let r = replace_spec::<T>(rows, row);
    assert forall|a: int, b: int|
        0 <= a < r.len() && 0 <= b < r.len() && a != b implies T::key_of(#[trigger] r[a])
        != T::key_of(#[trigger] r[b]) by {
        let n = r.len() - 1;
        if i >= 0 {
            let ia = if a < i { a } else { a + 1 };
            let ib = if b < i { b } else { b + 1 };
            if a < n {
                assert(r[a] == rows[ia]);
            }
            if b < n {
                assert(r[b] == rows[ib]);
            }
        } else {
            if a < n {
                assert(r[a] == rows[a]);
            }
            if b < n {
                assert(r[b] == rows[b]);
            }
        }
    }
}

pub proof fn lemma_ignore_distinct<T: Keyed>(rows: Seq<T::V>, row: T::V)
    requires
        keys_distinct::<T>(rows),
    ensures
        keys_distinct::<T>(ignore_spec::<T>(rows, row)),
{
    lemma_key_index::<T>(rows, T::key_of(row));
    let r = ignore_spec::<T>(rows, row);
    assert forall|a: int, b: int|
        0 <= a < r.len() && 0 <= b < r.len() && a != b implies T::key_of(#[trigger] r[a])
        != T::key_of(#[trigger] r[b]) by {
        if a < rows.len() {
            assert(r[a] == rows[a]);
        }
        if b < rows.len() {
            assert(r[b] == rows[b]);
        }
    }
}

pub proof fn lemma_upsert_distinct<T: Keyed>(rows: Seq<T::V>, row: T::V)
    requires
        keys_distinct::<T>(rows),
    ensures
        keys_distinct::<T>(upsert_spec::<T>(rows, row)),
{
    lemma_key_index::<T>(rows, T::key_of(row));
    let i = key_index::<T>(rows, T::key_of(row));
    let r = upsert_spec::<T>(rows, row);
    assert forall|a: int, b: int|
        0 <= a < r.len() && 0 <= b < r.len() && a != b implies T::key_of(#[trigger] r[a])
        != T::key_of(#[trigger] r[b]) by {
        if a < rows.len() && a != i {
            assert(r[a] == rows[a]);
        }
        if b < rows.len() && b != i {
            assert(r[b] == rows[b]);
        }
    }
}

/// Writes `row` as `INSERT OR REPLACE` does.
pub fn replace_row<T: Keyed>(rows: &mut Vec<T>, row: T)
    requires
        keys_distinct::<T>(views(old(rows)@)),
    ensures
        views(final(rows)@) == replace_spec::<T>(views(old(rows)@), row@),
        keys_distinct::<T>(views(final(rows)@)),
{
    let ghost before = views(rows@);
    proof {
        lemma_replace_distinct::<T>(before, row@);
        lemma_key_index::<T>(before, T::key_of(row@));
    }
    match find_key(rows, row.key()) {
        Some(i) => {
            let ghost r0 = rows@;
            rows.remove(i);
            proof {
                lemma_views_remove(r0, i as int);
            }
            let ghost r1 = rows@;
            let ghost v = row@;
            rows.push(row);
            proof {
                lemma_views_push(r1, row);
            }
        },
        None => {
            let ghost r1 = rows@;
            rows.push(row);
            proof {
                lemma_views_push(r1, row);
            }
        },
    }
}

/// Writes `row` as `INSERT OR IGNORE` does.
pub fn ignore_row<T: Keyed>(rows: &mut Vec<T>, row: T)
    requires
        keys_distinct::<T>(views(old(rows)@)),
    ensures
        views(final(rows)@) == ignore_spec::<T>(views(old(rows)@), row@),
        keys_distinct::<T>(views(final(rows)@)),
{
    proof {
        lemma_ignore_distinct::<T>(views(rows@), row@);
    }
    match find_key(rows, row.key()) {
        Some(_) => {},
        None => {
            let ghost r1 = rows@;
            rows.push(row);
            proof {
                lemma_views_push(r1, row);
            }
        },
    }
}

/// Writes `row` as `INSERT ... ON CONFLICT DO UPDATE` does.
pub fn upsert_row<T: Keyed>(rows: &mut Vec<T>, row: T)
    requires
        keys_distinct::<T>(views(old(rows)@)),
    ensures
        views(final(rows)@) == upsert_spec::<T>(views(old(rows)@), row@),
        keys_distinct::<T>(views(final(rows)@)),
{
    proof {
        lemma_upsert_distinct::<T>(views(rows@), row@);
        lemma_key_index::<T>(views(rows@), T::key_of(row@));
    }
    match find_key(rows, row.key()) {
        Some(i) => {
            let ghost r0 = rows@;
            let ghost v = row@;
            rows.set(i, row);
            assert(views(rows@) =~= views(r0).update(i as int, v));
        },
        None => {
            let ghost r1 = rows@;
            rows.push(row);
            proof {
                lemma_views_push(r1, row);
            }
        },
    }
}

pub proof fn lemma_update_distinct<T: Keyed>(rows: Seq<T::V>, i: int, row: T::V)
    requires
        keys_distinct::<T>(rows),
        0 <= i < rows.len(),
        T::key_of(row) == T::key_of(rows[i]),
    ensures
        keys_distinct::<T>(rows.update(i, row)),
{
    let r = rows.update(i, row);
    assert forall|a: int, b: int|
        0 <= a < r.len() && 0 <= b < r.len() && a != b implies T::key_of(#[trigger] r[a])
        != T::key_of(#[trigger] r[b]) by {
        assert(T::key_of(r[a]) == T::key_of(rows[a]));
        assert(T::key_of(r[b]) == T::key_of(rows[b]));
    }
}

/// Rewrites row `i` where it stands, keeping its key (`UPDATE ... WHERE`).
pub fn update_row<T: Keyed>(rows: &mut Vec<T>, i: usize, row: T)
    requires
        keys_distinct::<T>(views(old(rows)@)),
        i < old(rows)@.len(),
        T::key_of(row@) == T::key_of(old(rows)@[i as int]@),
    ensures
        views(final(rows)@) == views(old(rows)@).update(i as int, row@),
        keys_distinct::<T>(views(final(rows)@)),
{
    let ghost r0 = rows@;
    let ghost v = row@;
    proof {
        lemma_update_distinct::<T>(views(r0), i as int, v);
    }
    rows.set(i, row);
    assert(views(rows@) =~= views(r0).update(i as int, v));
}


pub proof fn lemma_replace_all_distinct<T: Keyed>(table: Seq<T::V>, rows: Seq<T::V>)
    requires
        keys_distinct::<T>(table),
    ensures
        keys_distinct::<T>(replace_all_spec::<T>(table, rows)),
    decreases rows.len(),
{
    if rows.len() > 0 {
        lemma_replace_all_distinct::<T>(table, rows.drop_last());
        lemma_replace_distinct::<T>(replace_all_spec::<T>(table, rows.drop_last()), rows.last());
    }
}

/// Rows written with `INSERT OR REPLACE` end up, in order, at the end of the
/// table.
pub proof fn lemma_replace_all_suffix<T: Keyed>(table: Seq<T::V>, rows: Seq<T::V>) -> (kept: Seq<T::V>)
    requires
        keys_distinct::<T>(table),
        keys_distinct::<T>(rows),
    ensures
        replace_all_spec::<T>(table, rows) == kept + rows,
        kept.len() <= table.len(),
    decreases rows.len(),
{
    if rows.len() == 0 {
        assert(table + rows =~= table);
        table
    } else {
        let p = rows.drop_last();
        let x = rows.last();
        assert(keys_distinct::<T>(p)) by {
            assert forall|i: int, j: int|
                0 <= i < p.len() && 0 <= j < p.len() && i != j implies T::key_of(#[trigger] p[i])
                != T::key_of(#[trigger] p[j]) by {
                assert(p[i] == rows[i]);
                assert(p[j] == rows[j]);
            }
        }
        let k0 = lemma_replace_all_suffix::<T>(table, p);
        let a = replace_all_spec::<T>(table, p);
        lemma_replace_all_distinct::<T>(table, p);
        lemma_key_index::<T>(a, T::key_of(x));
        let i = key_index::<T>(a, T::key_of(x));
        if i >= 0 {
            if i >= k0.len() {
                let j = i - k0.len();
                assert(a[i] == p[j]);
                assert(p[j] == rows[j]);
                assert(rows[rows.len() - 1] == x);
                assert(false);
            }
            let kept = k0.remove(i);
            assert(a.remove(i).push(x) =~= kept + rows);
            kept
        } else {
            assert(a.push(x) =~= k0 + rows);
            k0
        }
    }
}

proof fn lemma_replace_rotation<T: Keyed>(kept: Seq<T::V>, rows: Seq<T::V>, j: int)
    requires
        0 <= j <= rows.len(),
        keys_distinct::<T>(kept + rows),
    ensures
        replace_all_spec::<T>(kept + rows, rows.subrange(0, j)) == kept + rows.subrange(
            j,
            rows.len() as int,
        ) + rows.subrange(0, j),
    decreases j,
{
    let a = kept + rows;
    let n = rows.len() as int;
    if j == 0 {
        assert(rows.subrange(0, 0) =~= Seq::<T::V>::empty());
        assert(kept + rows.subrange(0, n) + rows.subrange(0, 0) =~= a);
    } else {
        lemma_replace_rotation::<T>(kept, rows, j - 1);
        let b = replace_all_spec::<T>(a, rows.subrange(0, j - 1));
        lemma_replace_all_distinct::<T>(a, rows.subrange(0, j - 1));
        let x = rows[j - 1];
        let pos = kept.len() as int;
        assert(b[pos] == x);
        lemma_key_index::<T>(b, T::key_of(x));
        assert(key_index::<T>(b, T::key_of(x)) == pos);
        let pre = rows.subrange(0, j);
        assert(pre.drop_last() =~= rows.subrange(0, j - 1));
        assert(pre.last() == x);
        assert(b.remove(pos).push(x) =~= kept + rows.subrange(j, n) + rows.subrange(0, j));
    }
}

/// Writing rows again with `INSERT OR REPLACE` after they were written that
/// way leaves the table as it was.
pub proof fn lemma_replace_all_twice<T: Keyed>(table: Seq<T::V>, rows: Seq<T::V>)
    requires
        keys_distinct::<T>(table),
        keys_distinct::<T>(rows),
    ensures
        replace_all_spec::<T>(replace_all_spec::<T>(table, rows), rows) == replace_all_spec::<T>(
            table,
            rows,
        ),
{
    let kept = lemma_replace_all_suffix::<T>(table, rows);
    let a = replace_all_spec::<T>(table, rows);
    lemma_replace_all_distinct::<T>(table, rows);
    let n = rows.len() as int;
    lemma_replace_rotation::<T>(kept, rows, n);
    assert(rows.subrange(0, n) =~= rows);
    assert(kept + rows.subrange(n, n) + rows.subrange(0, n) =~= a);
}

proof fn lemma_ignore_prefix_noop<T: Keyed>(a: Seq<T::V>, rows: Seq<T::V>, j: int)
    requires
        0 <= j <= rows.len(),
        forall|i: int| 0 <= i < rows.len() ==> has_key::<T>(a, T::key_of(#[trigger] rows[i])),
    ensures
        ignore_all_spec::<T>(a, rows.subrange(0, j)) == a,
    decreases j,
{
    if j > 0 {
        lemma_ignore_prefix_noop::<T>(a, rows, j - 1);
        let x = rows[j - 1];
        lemma_key_index::<T>(a, T::key_of(x));
        let pre = rows.subrange(0, j);
        assert(pre.drop_last() =~= rows.subrange(0, j - 1));
        assert(pre.last() == x);
    }
}

/// Writing rows again with `INSERT OR IGNORE` after they were written that
/// way leaves the table as it was.
pub proof fn lemma_ignore_all_twice<T: Keyed>(table: Seq<T::V>, rows: Seq<T::V>)
    ensures
        ignore_all_spec::<T>(ignore_all_spec::<T>(table, rows), rows) == ignore_all_spec::<T>(
            table,
            rows,
        ),
{
    let a = ignore_all_spec::<T>(table, rows);
    lemma_ignore_all_has_rows::<T>(table, rows);
    lemma_ignore_prefix_noop::<T>(a, rows, rows.len() as int);
    assert(rows.subrange(0, rows.len() as int) =~= rows);
}

/// Rows written with `INSERT OR IGNORE` keep every key of the table and have
/// every key of the rows.
pub proof fn lemma_ignore_all_has_rows<T: Keyed>(table: Seq<T::V>, rows: Seq<T::V>)
    ensures
        forall|x: Seq<char>| has_key::<T>(table, x) ==> has_key::<T>(
            ignore_all_spec::<T>(table, rows),
            x,
        ),
        forall|i: int| 0 <= i < rows.len() ==> has_key::<T>(
            ignore_all_spec::<T>(table, rows),
            T::key_of(#[trigger] rows[i]),
        ),
    decreases rows.len(),
{
    if rows.len() > 0 {
        let p = rows.drop_last();
        lemma_ignore_all_has_rows::<T>(table, p);
        let a = ignore_all_spec::<T>(table, p);
        let x = rows.last();
        lemma_key_index::<T>(a, T::key_of(x));
        let b = ignore_spec::<T>(a, x);
        assert forall|y: Seq<char>| has_key::<T>(a, y) implies has_key::<T>(b, y) by {
            let i = choose|i: int| 0 <= i < a.len() && T::key_of(#[trigger] a[i]) == y;
            if b != a {
                assert(b[i] == a[i]);
            }
        }
        assert(has_key::<T>(b, T::key_of(x))) by {
            if key_index::<T>(a, T::key_of(x)) < 0 {
                assert(b[b.len() - 1] == x);
            }
        }
        assert forall|i: int| 0 <= i < rows.len() implies has_key::<T>(
            b,
            T::key_of(#[trigger] rows[i]),
        ) by {
            if i < rows.len() - 1 {
                assert(rows[i] == p[i]);
            }
        }
    }
}

/// Whether no two rows share a key.
pub fn check_keys_distinct<T: Keyed>(rows: &Vec<T>) -> (r: bool)
    ensures
        r == keys_distinct::<T>(views(rows@)),
{
    let n = rows.len();
    let mut i: usize = 0;
    while i < n
        invariant
            n == rows.len(),
            i <= n,
            forall|a: int, b: int|
                0 <= a < i && 0 <= b < n && a != b ==> T::key_of(#[trigger] views(rows@)[a])
                    != T::key_of(#[trigger] views(rows@)[b]),
        decreases n - i,
    {
        let mut j: usize = 0;
        while j < n
            invariant
                n == rows.len(),
                i < n,
                j <= n,
                forall|a: int, b: int|
                    0 <= a < i && 0 <= b < n && a != b ==> T::key_of(#[trigger] views(rows@)[a])
                        != T::key_of(#[trigger] views(rows@)[b]),
                forall|b: int|
                    0 <= b < j && b != i ==> T::key_of(views(rows@)[i as int]) != T::key_of(
                        #[trigger] views(rows@)[b],
                    ),
            decreases n - j,
        {
            if j != i && crate::text::text_eq(rows[i].key(), rows[j].key()) {
                assert(T::key_of(views(rows@)[i as int]) == T::key_of(views(rows@)[j as int]));
                return false;
            }
            j = j + 1;
        }
        i = i + 1;
    }
    true
}

} // verus!
