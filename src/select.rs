//! Ranking: a stable sort by one metric column, descending, and the cut to
//! the requested number of rows.
use vstd::prelude::*;
use crate::parse::{rows_view, Row, RowView};

verus! {

/// How many rows to keep.
#[derive(Clone, Copy, Debug, PartialEq, Eq, Structural)]
pub enum Selection {
    All,
    Top(usize),
}

/// The first position in `t`, from `j` on, whose count in column `k` is below
/// that of `x`: where `x` goes so that `t` stays descending and rows with
/// equal counts keep their order.
pub open spec fn insert_pos(t: Seq<RowView>, x: RowView, k: int, j: int) -> int
    decreases t.len() - j,
{
    if j < 0 || j >= t.len() {
        t.len() as int
    } else if t[j].values[k] < x.values[k] {
        j
    } else {
        insert_pos(t, x, k, j + 1)
    }
}

/// The rows ordered by their count in column `k`, largest first; rows with
/// equal counts stay in their order.
pub open spec fn sort_desc(s: Seq<RowView>, k: int) -> Seq<RowView>
    decreases s.len(),
{
    if s.len() == 0 {
        s
    } else {
        let t = sort_desc(s.drop_last(), k);
        t.insert(insert_pos(t, s.last(), k, 0), s.last())
    }
}

/// The first `n` rows, or all of them where there are no more.
pub open spec fn take_count(s: Seq<RowView>, count: Selection) -> Seq<RowView> {
    match count {
        Selection::All => s,
        Selection::Top(n) => if n < s.len() {
            s.take(n as int)
        } else {
            s
        },
    }
}

/// The rows to show: sorted by column `k` where a key is given, else in
/// their order, then cut to `count`.
pub open spec fn select_rows(s: Seq<RowView>, key: Option<int>, count: Selection) -> Seq<RowView> {
    match key {
        Some(k) => take_count(sort_desc(s, k), count),
        None => take_count(s, count),
    }
}

pub open spec fn has_column(s: Seq<RowView>, k: int) -> bool {
    forall|i: int| 0 <= i < s.len() ==> 0 <= k < (#[trigger] s[i]).values.len()
}

/// Where `x` goes in `out` (see `insert_pos`).
fn find_insert_pos(out: &Vec<Row>, x: &Row, k: usize) -> (r: usize)
    requires
        has_column(rows_view(out@), k as int),
        k < x.values@.len(),
    ensures
        r == insert_pos(rows_view(out@), x@, k as int, 0),
        r <= out@.len(),
{
    let ghost t = rows_view(out@);
    let mut j: usize = 0;
    while j < out.len()
        invariant
            t == rows_view(out@),
            has_column(t, k as int),
            k < x.values@.len(),
            j <= out@.len(),
            insert_pos(t, x@, k as int, j as int) == insert_pos(t, x@, k as int, 0),
        decreases out@.len() - j,
    {
        assert(t[j as int] == out@[j as int]@);
        assert(0 <= k < t[j as int].values.len());
        if out[j].values[k] < x.values[k] {
            return j;
        }
        j += 1;
    }
    j
}

/// Sorts the rows by their count in column `k`, largest first, keeping the
/// order of rows with equal counts.
pub fn sort_rows(rows: Vec<Row>, k: usize) -> (r: Vec<Row>)
    requires
        has_column(rows_view(rows@), k as int),
    ensures
        rows_view(r@) == sort_desc(rows_view(rows@), k as int),
{
    let ghost orig = rows_view(rows@);
    let n = rows.len();
    let mut src = rows;
    let mut out: Vec<Row> = Vec::new();
    let mut j: usize = 0;
    proof {
        assert(orig.take(0) =~= seq![]);
        assert(rows_view(out@) =~= seq![]);
        assert(rows_view(src@) =~= orig.subrange(0, n as int));
    }
    while j < n
        invariant
            n == orig.len(),
            j <= n,
            has_column(orig, k as int),
            rows_view(src@) == orig.subrange(j as int, n as int),
            rows_view(out@) == sort_desc(orig.take(j as int), k as int),
            has_column(rows_view(out@), k as int),
            sort_desc(orig.take(j as int), k as int).to_multiset() == orig.take(j as int).to_multiset(),
        decreases n - j,
    {
        let ghost old_src = src@;
        assert(rows_view(old_src).len() == old_src.len());
        let x = src.remove(0);
        proof {
            assert(src@ =~= old_src.subrange(1, old_src.len() as int));
            assert(rows_view(old_src)[0] == orig.subrange(j as int, n as int)[0]);
            assert(x@ == orig[j as int]);
            assert forall|i: int| 0 <= i < n - j - 1 implies #[trigger] rows_view(src@)[i]
                == orig.subrange(j + 1, n as int)[i] by {
                assert(rows_view(old_src)[i + 1] == orig.subrange(j as int, n as int)[i + 1]);
            }
            assert(rows_view(src@) =~= orig.subrange(j + 1, n as int));
            assert(orig.take(j + 1).drop_last() =~= orig.take(j as int));
            assert(orig.take(j + 1).last() == orig[j as int]);
        }
        let p = find_insert_pos(&out, &x, k);
        let ghost before = rows_view(out@);
        out.insert(p, x);
        proof {
            assert(rows_view(out@) =~= before.insert(p as int, orig[j as int]));
            vstd::seq_lib::to_multiset_insert(before, p as int, orig[j as int]);
            vstd::seq_lib::to_multiset_build(orig.take(j as int), orig[j as int]);
            assert(orig.take(j + 1) =~= orig.take(j as int).push(orig[j as int]));
            assert forall|i: int| 0 <= i < rows_view(out@).len() implies 0 <= k < (
            #[trigger] rows_view(out@)[i]).values.len() by {
                if i < p {
                    assert(rows_view(out@)[i] == before[i]);
                } else if i > p {
                    assert(rows_view(out@)[i] == before[i - 1]);
                }
            }
        }
        j += 1;
    }
    proof {
        assert(orig.take(n as int) =~= orig);
    }
    out
}

} // verus!

verus! {

/// Counts in column `k` never grow from one row to a later one.
pub open spec fn is_desc(s: Seq<RowView>, k: int) -> bool {
    forall|i: int, j: int|
        0 <= i < j < s.len() ==> (#[trigger] s[i]).values[k] >= (#[trigger] s[j]).values[k]
}

pub proof fn lemma_insert_pos(t: Seq<RowView>, x: RowView, k: int, j: int)
    requires
        0 <= j <= t.len(),
    ensures
        j <= insert_pos(t, x, k, j) <= t.len(),
        forall|i: int| j <= i < insert_pos(t, x, k, j) ==> (#[trigger] t[i]).values[k] >= x.values[k],
        insert_pos(t, x, k, j) < t.len() ==> t[insert_pos(t, x, k, j)].values[k] < x.values[k],
    decreases t.len() - j,
{
    if j < t.len() && t[j].values[k] >= x.values[k] {
        lemma_insert_pos(t, x, k, j + 1);
    }
}

/// The sort keeps the rows (as a multiset), and orders them by column `k`,
/// largest first.
pub proof fn lemma_sort_desc(s: Seq<RowView>, k: int)
    requires
        has_column(s, k),
    ensures
        sort_desc(s, k).len() == s.len(),
        sort_desc(s, k).to_multiset() == s.to_multiset(),
        is_desc(sort_desc(s, k), k),
        has_column(sort_desc(s, k), k),
    decreases s.len(),
{
    if s.len() > 0 {
        let x = s.last();
        let t = sort_desc(s.drop_last(), k);
        assert(has_column(s.drop_last(), k)) by {
            assert forall|i: int| 0 <= i < s.drop_last().len() implies 0 <= k < (
            #[trigger] s.drop_last()[i]).values.len() by {
                assert(s.drop_last()[i] == s[i]);
            }
        }
        lemma_sort_desc(s.drop_last(), k);
        lemma_insert_pos(t, x, k, 0);
        let p = insert_pos(t, x, k, 0);
        let u = t.insert(p, x);
        assert(sort_desc(s, k) == u);
        vstd::seq_lib::to_multiset_insert(t, p, x);
        vstd::seq_lib::to_multiset_build(s.drop_last(), x);
        assert(s =~= s.drop_last().push(x));
        assert forall|i: int| 0 <= i < u.len() implies 0 <= k < (#[trigger] u[i]).values.len() by {
            if i < p {
                assert(u[i] == t[i]);
            } else if i > p {
                assert(u[i] == t[i - 1]);
            }
        }
        assert forall|i: int, j: int| 0 <= i < j < u.len() implies (#[trigger] u[i]).values[k]
            >= (#[trigger] u[j]).values[k] by {
            if j < p {
                assert(u[i] == t[i] && u[j] == t[j]);
            } else if j == p {
                assert(u[i] == t[i]);
            } else if i > p {
                assert(u[i] == t[i - 1] && u[j] == t[j - 1]);
            } else if i == p {
                assert(u[j] == t[j - 1]);
                assert(t[p].values[k] < x.values[k]);
                if j - 1 > p {
                    assert(t[p].values[k] >= t[j - 1].values[k]);
                }
            } else {
                assert(u[i] == t[i] && u[j] == t[j - 1]);
            }
        }
    }
}

/// The sort is stable: the rows with any one count in column `k` come out
/// in the order in which they came in.
pub proof fn law_sort_stable(s: Seq<RowView>, k: int, v: u64)
    requires
        has_column(s, k),
    ensures
        sort_desc(s, k).filter(|r: RowView| r.values[k] == v) == s.filter(
            |r: RowView| r.values[k] == v,
        ),
    decreases s.len(),
{
    let pred = |r: RowView| r.values[k] == v;
    if s.len() > 0 {
        let x = s.last();
        let d = s.drop_last();
        assert(has_column(d, k)) by {
            assert forall|i: int| 0 <= i < d.len() implies 0 <= k < (#[trigger] d[i]).values.len() by {
                assert(d[i] == s[i]);
            }
        }
        law_sort_stable(d, k, v);
        lemma_sort_desc(d, k);
        let t = sort_desc(d, k);
        lemma_insert_pos(t, x, k, 0);
        let p = insert_pos(t, x, k, 0);
        let a = t.take(p);
        let b = t.skip(p);
        assert(sort_desc(s, k) =~= a + seq![x] + b);
        assert(t =~= a + b);
        Seq::filter_distributes_over_add(a + seq![x], b, pred);
        Seq::filter_distributes_over_add(a, seq![x], pred);
        Seq::filter_distributes_over_add(a, b, pred);
        Seq::<RowView>::empty().lemma_filter_push(x, pred);
        assert(seq![x] =~= Seq::<RowView>::empty().push(x));
        assert(Seq::<RowView>::empty().filter(pred) =~= Seq::<RowView>::empty());
        assert(s =~= d.push(x));
        d.lemma_filter_push(x, pred);
        if pred(x) {
            assert forall|i: int| 0 <= i < b.len() implies !pred(#[trigger] b[i]) by {
                assert(b[i] == t[p + i]);
                assert(t[p].values[k] < x.values[k]);
                if i > 0 {
                    assert(t[p].values[k] >= t[p + i].values[k]);
                }
            }
            b.lemma_all_neg_filter_empty(pred);
            assert(b.filter(pred) =~= Seq::<RowView>::empty());
            assert(a.filter(pred) + b.filter(pred) =~= a.filter(pred));
        }
    }
}

/// Selecting the top `n` rows by column `k`, for `n` below the number of
/// rows, gives `n` rows; together with the rows left out they are the rows
/// of the input, and each has a count at least that of every row left out.
pub proof fn law_top_n(s: Seq<RowView>, k: int, n: usize)
    requires
        has_column(s, k),
        n < s.len(),
    ensures
        ({
            let chosen = select_rows(s, Some(k), Selection::Top(n));
            let left = sort_desc(s, k).skip(n as int);
            &&& chosen.len() == n
            &&& chosen.to_multiset().add(left.to_multiset()) == s.to_multiset()
            &&& forall|i: int, j: int|
                0 <= i < chosen.len() && 0 <= j < left.len() ==> (#[trigger] chosen[i]).values[k]
                    >= (#[trigger] left[j]).values[k]
        }),
{
    lemma_sort_desc(s, k);
    let t = sort_desc(s, k);
    let chosen = t.take(n as int);
    let left = t.skip(n as int);
    assert(t =~= chosen + left);
    vstd::seq_lib::lemma_multiset_commutative(chosen, left);
    assert forall|i: int, j: int|
        0 <= i < chosen.len() && 0 <= j < left.len() implies (#[trigger] chosen[i]).values[k]
        >= (#[trigger] left[j]).values[k] by {
        assert(chosen[i] == t[i] && left[j] == t[n + j]);
    }
}

/// Selecting all rows keeps every row: the result is the whole sort (or the
/// rows in their order where no key is given).
pub proof fn law_select_all(s: Seq<RowView>, key: Option<int>)
    requires
        key matches Some(k) ==> has_column(s, k),
    ensures
        select_rows(s, key, Selection::All) == (match key {
            Some(k) => sort_desc(s, k),
            None => s,
        }),
        select_rows(s, key, Selection::All).len() == s.len(),
        select_rows(s, key, Selection::All).to_multiset() == s.to_multiset(),
{
    if let Some(k) = key {
        lemma_sort_desc(s, k);
    }
}

/// Asking for at least as many rows as there are is asking for all of them.
pub proof fn law_select_at_least_all(s: Seq<RowView>, key: Option<int>, n: usize)
    requires
        key matches Some(k) ==> has_column(s, k),
        n >= s.len(),
    ensures
        select_rows(s, key, Selection::Top(n)) == select_rows(s, key, Selection::All),
        select_rows(s, key, Selection::Top(n)).len() == s.len(),
{
    law_select_all(s, key);
}

} // verus!

verus! {

/// Every row has `n` counts.
pub open spec fn rows_fit(s: Seq<RowView>, n: nat) -> bool {
    forall|i: int| 0 <= i < s.len() ==> (#[trigger] s[i]).values.len() == n
}

pub proof fn lemma_sort_fits(s: Seq<RowView>, k: int, n: nat)
    requires
        rows_fit(s, n),
    ensures
        rows_fit(sort_desc(s, k), n),
    decreases s.len(),
{
    if s.len() > 0 {
        let x = s.last();
        let d = s.drop_last();
        assert(rows_fit(d, n)) by {
            assert forall|i: int| 0 <= i < d.len() implies (#[trigger] d[i]).values.len() == n by {
                assert(d[i] == s[i]);
            }
        }
        lemma_sort_fits(d, k, n);
        let t = sort_desc(d, k);
        let p = insert_pos(t, x, k, 0);
        lemma_insert_pos(t, x, k, 0);
        let u = t.insert(p, x);
        assert forall|i: int| 0 <= i < u.len() implies (#[trigger] u[i]).values.len() == n by {
            if i < p {
                assert(u[i] == t[i]);
            } else if i > p {
                assert(u[i] == t[i - 1]);
            }
        }
    }
}

/// The selected rows have as many counts as the rows they come from.
pub proof fn lemma_selected_rows_fit(s: Seq<RowView>, key: Option<int>, count: Selection, n: nat)
    requires
        rows_fit(s, n),
    ensures
        rows_fit(select_rows(s, key, count), n),
{
    let t = match key {
        Some(k) => sort_desc(s, k),
        None => s,
    };
    if let Some(k) = key {
        lemma_sort_fits(s, k, n);
    }
    assert(rows_fit(t, n));
    if let Selection::Top(m) = count {
        if m < t.len() {
            assert forall|i: int| 0 <= i < t.take(m as int).len() implies (#[trigger] t.take(
                m as int,
            )[i]).values.len() == n by {
                assert(t.take(m as int)[i] == t[i]);
            }
        }
    }
}

} // verus!
