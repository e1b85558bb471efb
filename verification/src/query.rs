//! Stateless query operations over a full scan of the store: range
//! filter, threshold filter, sum aggregation, pagination and descending
//! sort. Each result is pinned to the store's id-ordered sequence view.
use vstd::prelude::*;
use crate::record::{Error, Expense, ExpenseView};
use crate::store::ExpenseStore;
use vstd::multiset::Multiset;
use vstd::string::StringExecFns;

verus! {

broadcast use vstd::seq::group_seq_axioms;

/// The views of a sequence of records.
pub open spec fn views_of(s: Seq<Expense>) -> Seq<ExpenseView> {
    s.map_values(|e: Expense| e@)
}

/// Filtering distributes over appending one element.
proof fn lemma_filter_push(s: Seq<ExpenseView>, pred: spec_fn(ExpenseView) -> bool, x: ExpenseView)
    ensures
        s.push(x).filter(pred) == if pred(x) {
            s.filter(pred).push(x)
        } else {
            s.filter(pred)
        },
{
    reveal(Seq::filter);
    assert(s.push(x).drop_last() =~= s);
    assert(s.push(x).last() == x);
}

/// Records whose date lies in the inclusive range `[start_date, end_date]`.
pub open spec fn in_date_range(v: ExpenseView, start_date: u64, end_date: u64) -> bool {
    start_date <= v.date && v.date <= end_date
}

/// Returns the records whose date lies within the inclusive range, in
/// ascending id order.
pub fn get_expenses_by_date_range(store: &ExpenseStore, start_date: u64, end_date: u64) -> (r: Vec<
    Expense,
>)
    requires
        store.wf(),
    ensures
        views_of(r@) == store.seq_view().filter(|v: ExpenseView| in_date_range(v, start_date, end_date)),
{
    let ghost pred = |v: ExpenseView| in_date_range(v, start_date, end_date);
    let mut all = store.scan();
    let ghost full = store.seq_view();
    let mut out: Vec<Expense> = Vec::new();
    let ghost mut i: int = 0;
    proof {
        assert(full.take(0) =~= Seq::<ExpenseView>::empty());
        reveal(Seq::filter);
    }
    while all.len() > 0
        invariant
            0 <= i <= full.len(),
            views_of(all@) =~= full.skip(i),
            views_of(out@) == full.take(i).filter(pred),
            pred == (|v: ExpenseView| in_date_range(v, start_date, end_date)),
        decreases all@.len(),
    {
        let ghost prev_all = all@;
        let e = all.remove(0);
        proof {
            assert(views_of(prev_all) == full.skip(i));
            assert(views_of(prev_all).len() == prev_all.len());
            assert(prev_all.len() > 0);
            assert(full.skip(i).len() == full.len() - i);
            assert(0 <= i < full.len());
            assert(views_of(prev_all)[0] == e@);
            assert(full.skip(i)[0] == full[i]);
            assert(e@ == full[i]);
            assert(views_of(all@) =~= prev_all.map_values(|x: Expense| x@).remove(0));
            assert(views_of(all@) =~= full.skip(i + 1));
            assert(full.take(i + 1) =~= full.take(i).push(full[i]));
            lemma_filter_push(full.take(i), pred, full[i]);
        }
        if e.date >= start_date && e.date <= end_date {
            out.push(e);
            proof {
                assert(views_of(out@) =~= full.take(i).filter(pred).push(full[i as int]));
            }
        } else {
            proof {
                assert(!pred(e@));
            }
        }
        proof {
            i = i + 1;
        }
    }
    proof {
        assert(full.take(i) =~= full);
    }
    out
}

/// Records whose amount lies strictly above the threshold.
pub open spec fn above_amount(v: ExpenseView, min_amount: i64) -> bool {
    v.amount > min_amount
}

/// Returns the records whose amount is strictly greater than
/// `min_amount`, in ascending id order.
pub fn get_expenses_above_amount(store: &ExpenseStore, min_amount: i64) -> (r: Vec<Expense>)
    requires
        store.wf(),
    ensures
        views_of(r@) == store.seq_view().filter(|v: ExpenseView| above_amount(v, min_amount)),
{
    let ghost pred = |v: ExpenseView| above_amount(v, min_amount);
    let mut all = store.scan();
    let ghost full = store.seq_view();
    let mut out: Vec<Expense> = Vec::new();
    let ghost mut i: int = 0;
    proof {
        assert(full.take(0) =~= Seq::<ExpenseView>::empty());
        reveal(Seq::filter);
    }
    while all.len() > 0
        invariant
            0 <= i <= full.len(),
            views_of(all@) =~= full.skip(i),
            views_of(out@) == full.take(i).filter(pred),
            pred == (|v: ExpenseView| above_amount(v, min_amount)),
        decreases all@.len(),
    {
        let ghost prev_all = all@;
        let e = all.remove(0);
        proof {
            assert(views_of(prev_all) == full.skip(i));
            assert(views_of(prev_all).len() == prev_all.len());
            assert(prev_all.len() > 0);
            assert(full.skip(i).len() == full.len() - i);
            assert(0 <= i < full.len());
            assert(views_of(prev_all)[0] == e@);
            assert(full.skip(i)[0] == full[i]);
            assert(e@ == full[i]);
            assert(views_of(all@) =~= prev_all.map_values(|x: Expense| x@).remove(0));
            assert(views_of(all@) =~= full.skip(i + 1));
            assert(full.take(i + 1) =~= full.take(i).push(full[i]));
            lemma_filter_push(full.take(i), pred, full[i]);
        }
        if e.amount > min_amount {
            out.push(e);
            proof {
                assert(views_of(out@) =~= full.take(i).filter(pred).push(full[i as int]));
            }
        } else {
            proof {
                assert(!pred(e@));
            }
        }
        proof {
            i = i + 1;
        }
    }
    proof {
        assert(full.take(i) =~= full);
    }
    out
}

/// The sum of the amounts of a sequence of records.
pub open spec fn sum_amounts(s: Seq<ExpenseView>) -> int
    decreases s.len(),
{
    if s.len() == 0 {
        0
    } else {
        sum_amounts(s.drop_last()) + s.last().amount
    }
}

/// A sum of per-record amounts in `[1, i64::MAX]` lies between zero and
/// the record count times `i64::MAX`.
proof fn lemma_sum_bounds(s: Seq<ExpenseView>)
    requires
        forall|i: int| 0 <= i < s.len() ==> 0 < (#[trigger] s[i]).amount,
    ensures
        0 <= sum_amounts(s) <= s.len() * 0x7fff_ffff_ffff_ffff,
    decreases s.len(),
{
    if s.len() > 0 {
        lemma_sum_bounds(s.drop_last());
    }
}

/// Returns the sum of all stored amounts; zero on an empty store. The
/// result is exact: a 128-bit sum of 64-bit amounts cannot overflow.
pub fn calculate_total_expenses(store: &ExpenseStore) -> (r: i128)
    requires
        store.wf(),
    ensures
        r == sum_amounts(store.seq_view()),
        r >= 0,
{
    let all = store.scan();
    let ghost full = store.seq_view();
    proof {
        assert forall|j: int| 0 <= j < full.len() implies 0 < (#[trigger] full[j]).amount by {
            assert(store.records().contains_pair(full[j].id, full[j]));
            assert(crate::record::record_valid(store.records()[full[j].id]));
        }
        assert(full.take(0) =~= Seq::<ExpenseView>::empty());
    }
    let n = all.len();
    let mut total: i128 = 0;
    let mut i: usize = 0;
    while i < n
        invariant
            0 <= i <= n,
            n == all@.len(),
            views_of(all@) == full,
            forall|j: int| 0 <= j < full.len() ==> 0 < (#[trigger] full[j]).amount,
            total == sum_amounts(full.take(i as int)),
            0 <= total <= (i as int) * 0x7fff_ffff_ffff_ffff,
        decreases n - i,
    {
        proof {
            assert(full.take(i + 1).drop_last() =~= full.take(i as int));
            assert(full.take(i + 1).last() == full[i as int]);
            assert(full[i as int] == views_of(all@)[i as int]);
            lemma_sum_bounds(full.take(i + 1));
        }
        total = total + (all[i].amount as i128);
        i = i + 1;
    }
    proof {
        assert(full.take(n as int) =~= full);
    }
    total
}

/// Returns the records of the 1-indexed page `page` with `per_page`
/// records per page, following ascending id order; the last page may be
/// shorter. A `page` of zero is rejected as invalid input rather than
/// wrapping around.
pub fn get_paginated_expenses(store: &ExpenseStore, page: usize, per_page: usize) -> (r: Result<
    Vec<Expense>,
    Error,
>)
    requires
        store.wf(),
    ensures
        page == 0 ==> (r matches Err(Error::InvalidInput { .. })),
        page >= 1 ==> (r matches Ok(v) && {
            let full = store.seq_view();
            let start = (page - 1) * per_page;
            let lo = if start <= full.len() {
                start
            } else {
                full.len() as int
            };
            let hi = if start + per_page <= full.len() {
                start + per_page
            } else {
                full.len() as int
            };
            views_of(v@) == full.subrange(lo, hi) && v@.len() == vstd::math::min(
                per_page as int,
                vstd::math::max(0, full.len() - start),
            )
        }),
{
    if page == 0 {
        return Err(
            Error::InvalidInput { msg: String::from_str("Page number must be at least 1") },
        );
    }
    let mut all = store.scan();
    let ghost full = store.seq_view();
    let start_opt = (page - 1).checked_mul(per_page);
    let mut out: Vec<Expense> = Vec::new();
    match start_opt {
        None => {
            // The offset exceeds any possible store size, so the page is
            // past the end and empty.
            let n = all.len();
            proof {
                assert(n == full.len());
                assert(views_of(out@) =~= full.subrange(full.len() as int, full.len() as int));
            }
            Ok(out)
        },
        Some(start) => {
            if start >= all.len() {
                proof {
                    assert(full.len() <= start);
                    assert(views_of(out@) =~= full.subrange(full.len() as int, full.len() as int));
                }
                return Ok(out);
            }
            let mut taken: usize = 0;
            while taken < per_page && start < all.len()
                invariant
                    0 <= taken,
                    taken <= per_page,
                    start + taken <= full.len(),
                    all@.len() == full.len() - taken,
                    views_of(all@) =~= full.take(start as int) + full.skip(start + taken),
                    views_of(out@) =~= full.subrange(start as int, start + taken),
                decreases per_page - taken,
            {
                let ghost prev_all = all@;
                let ghost prev_out = out@;
                let e = all.remove(start);
                proof {
                    assert(views_of(prev_all) == full.take(start as int) + full.skip(
                        start + taken,
                    ));
                    assert(full.take(start as int).len() == start);
                    assert(full.skip(start + taken).len() == full.len() - start - taken);
                    assert(views_of(prev_all)[start as int] == e@);
                    assert((full.take(start as int) + full.skip(start + taken))[start as int]
                        == full.skip(start + taken)[0]);
                    assert(full.skip(start + taken)[0] == full[start + taken]);
                    assert(e@ == full[start + taken]);
                    assert(views_of(all@) =~= views_of(prev_all).remove(start as int));
                    assert forall|x: int| 0 <= x < views_of(all@).len() implies views_of(all@)[x]
                        == (full.take(start as int) + full.skip(start + taken + 1))[x] by {
                        if x < start {
                            assert(views_of(prev_all).remove(start as int)[x]
                                == views_of(prev_all)[x]);
                        } else {
                            assert(views_of(prev_all).remove(start as int)[x]
                                == views_of(prev_all)[x + 1]);
                            assert(views_of(prev_all)[x + 1] == full.skip(start + taken)[
                                x + 1 - start]);
                            assert(full.skip(start + taken)[x + 1 - start] == full[taken + x + 1]);
                            assert((full.take(start as int) + full.skip(start + taken + 1))[x]
                                == full.skip(start + taken + 1)[x - start]);
                            assert(full.skip(start + taken + 1)[x - start] == full[taken + 1 + x]);
                        }
                    }
                    assert(views_of(all@) =~= full.take(start as int) + full.skip(
                        start + taken + 1,
                    ));
                }
                out.push(e);
                proof {
                    assert(views_of(out@) =~= views_of(prev_out).push(e@));
                    assert(views_of(prev_out) == full.subrange(start as int, start + taken));
                    assert forall|x: int| 0 <= x < taken + 1 implies views_of(out@)[x]
                        == full.subrange(start as int, start + taken + 1)[x] by {
                        if x < taken {
                            assert(views_of(out@)[x] == views_of(prev_out)[x]);
                            assert(views_of(prev_out)[x] == full[start + x]);
                        } else {
                            assert(views_of(out@)[x] == e@);
                        }
                        assert(full.subrange(start as int, start + taken + 1)[x] == full[start + x]);
                    }
                    assert(views_of(out@) =~= full.subrange(start as int, start + taken + 1));
                }
                taken = taken + 1;
            }
            proof {
                let lo = start as int;
                let hi = if start + per_page <= full.len() {
                    start + per_page
                } else {
                    full.len() as int
                };
                assert(views_of(out@) =~= full.subrange(lo, hi));
            }
            Ok(out)
        },
    }
}

/// Descending order on records: larger amount first, ties broken by
/// ascending id.
pub open spec fn amount_ge(a: ExpenseView, b: ExpenseView) -> bool {
    a.amount > b.amount || (a.amount == b.amount && a.id <= b.id)
}

/// Returns all records sorted by amount, largest first, ties broken by
/// ascending id; the result holds exactly the stored records.
pub fn get_expenses_sorted_by_amount(store: &ExpenseStore) -> (r: Vec<Expense>)
    requires
        store.wf(),
    ensures
        forall|i: int, j: int|
            0 <= i < j < r@.len() ==> amount_ge(#[trigger] r@[i]@, #[trigger] r@[j]@),
        views_of(r@).to_multiset() == store.seq_view().to_multiset(),
{
    let mut all = store.scan();
    let ghost full = store.seq_view();
    let mut out: Vec<Expense> = Vec::new();
    proof {
        views_of(out@).to_multiset_ensures();
        views_of(all@).to_multiset_ensures();
        assert(views_of(out@).to_multiset().add(views_of(all@).to_multiset()) =~= full.to_multiset());
    }
    while all.len() > 0
        invariant
            views_of(out@).to_multiset().add(views_of(all@).to_multiset()) == full.to_multiset(),
            forall|i: int, j: int|
                0 <= i < j < out@.len() ==> amount_ge(#[trigger] out@[i]@, #[trigger] out@[j]@),
            forall|i: int, j: int|
                0 <= i < out@.len() && 0 <= j < all@.len() ==> amount_ge(
                    #[trigger] out@[i]@,
                    #[trigger] all@[j]@,
                ),
        decreases all@.len(),
    {
        let mut best: usize = 0;
        let mut j: usize = 1;
        while j < all.len()
            invariant
                0 <= best < j <= all@.len(),
                all@.len() > 0,
                forall|l: int| 0 <= l < j ==> amount_ge(all@[best as int]@, #[trigger] all@[l]@),
            decreases all@.len() - j,
        {
            if all[j].amount > all[best].amount || (all[j].amount == all[best].amount && all[j].id
                < all[best].id) {
                best = j;
            }
            j = j + 1;
        }
        let ghost prev_all = all@;
        let ghost prev_out = out@;
        let e = all.remove(best);
        out.push(e);
        proof {
            assert(e@ == views_of(prev_all)[best as int]);
            assert(views_of(all@) =~= views_of(prev_all).remove(best as int));
            assert(views_of(out@) =~= views_of(prev_out).push(e@));
            views_of(prev_all).to_multiset_ensures();
            views_of(prev_out).to_multiset_ensures();
            assert(views_of(all@).to_multiset() =~= views_of(prev_all).to_multiset().remove(e@));
            assert(views_of(out@).to_multiset() =~= views_of(prev_out).to_multiset().insert(e@));
            assert(views_of(out@).to_multiset().add(views_of(all@).to_multiset()) =~= full.to_multiset());
        }
    }
    proof {
        views_of(all@).to_multiset_ensures();
        assert(views_of(all@).to_multiset() =~= Multiset::<ExpenseView>::empty());
        assert(views_of(out@).to_multiset() =~= full.to_multiset());
    }
    out
}

} // verus!
