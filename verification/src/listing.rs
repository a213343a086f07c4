//! The GIF listing: ordering by recency, paging, walking the storage listing page by page,
//! and capping logs.
use vstd::prelude::*;

verus! {

/// `s` with `x` placed after every element whose time is at least `x`'s, and before the
/// rest; where `s` is ordered newest first, the result is too, `x` following its equals.
pub open spec fn insert_newest_first<T>(s: Seq<(i64, T)>, x: (i64, T)) -> Seq<(i64, T)>
    decreases s.len(),
{
    if s.len() == 0 {
        seq![x]
    } else if s.last().0 >= x.0 {
        s.push(x)
    } else {
        insert_newest_first(s.drop_last(), x).push(s.last())
    }
}

/// `s` ordered newest first, equal times keeping their order: a stable sort by time,
/// descending.
pub open spec fn sorted_newest_first<T>(s: Seq<(i64, T)>) -> Seq<(i64, T)>
    decreases s.len(),
{
    if s.len() == 0 {
        s
    } else {
        insert_newest_first(sorted_newest_first(s.drop_last()), s.last())
    }
}

proof fn lemma_insert_at<T>(s: Seq<(i64, T)>, x: (i64, T), p: int)
    requires
        0 <= p <= s.len(),
        forall|k: int| p <= k < s.len() ==> #[trigger] s[k].0 < x.0,
        p > 0 ==> s[p - 1].0 >= x.0,
    ensures
        insert_newest_first(s, x) == s.insert(p, x),
    decreases s.len(),
{
    if s.len() == 0 {
        assert(s.insert(p, x) =~= seq![x]);
    } else if s.len() == p {
        assert(s.insert(p, x) =~= s.push(x));
    } else {
        let d = s.drop_last();
        assert forall|k: int| p <= k < d.len() implies #[trigger] d[k].0 < x.0 by {
            assert(d[k] == s[k]);
        }
        if p > 0 {
            assert(d[p - 1] == s[p - 1]);
        }
        lemma_insert_at(d, x, p);
        assert(d.insert(p, x).push(s.last()) =~= s.insert(p, x));
    }
}

/// The entries ordered newest first, entries of equal time in their given order.
pub fn sort_newest_first<T>(items: Vec<(i64, T)>) -> (sorted: Vec<(i64, T)>)
    ensures
        sorted@ == sorted_newest_first(items@),
{
    let ghost orig = items@;
    let total = items.len();
    let mut rest = items;
    let mut sorted: Vec<(i64, T)> = Vec::new();
    let mut done: usize = 0;
    proof {
        assert(orig.take(0) == Seq::<(i64, T)>::empty());
        assert(rest@ == orig.skip(0));
    }
    while rest.len() > 0
        invariant
            total == orig.len(),
            done <= orig.len(),
            rest@ == orig.skip(done as int),
            sorted@ == sorted_newest_first(orig.take(done as int)),
        decreases rest@.len(),
    {
        let x = rest.remove(0);
        proof {
            assert(x == orig[done as int]);
            assert(rest@ == orig.skip(done + 1));
            assert(orig.take(done + 1).drop_last() == orig.take(done as int));
            assert(orig.take(done + 1).last() == x);
        }
        let mut pos = sorted.len();
        while pos > 0 && sorted[pos - 1].0 < x.0
            invariant
                pos <= sorted@.len(),
                forall|k: int| pos <= k < sorted@.len() ==> #[trigger] sorted@[k].0 < x.0,
            decreases pos,
        {
            pos = pos - 1;
        }
        proof {
            lemma_insert_at(sorted@, x, pos as int);
        }
        sorted.insert(pos, x);
        done = done + 1;
    }
    proof {
        assert(orig.take(done as int) == orig);
    }
    sorted
}

/// Entries ordered newest first.
pub open spec fn newest_first<T>(s: Seq<(i64, T)>) -> bool {
    forall|i: int, j: int| 0 <= i < j < s.len() ==> s[i].0 >= s[j].0
}

proof fn lemma_insert_elements<T>(s: Seq<(i64, T)>, x: (i64, T))
    ensures
        insert_newest_first(s, x).len() == s.len() + 1,
        forall|i: int|
            0 <= i < insert_newest_first(s, x).len() ==> #[trigger] insert_newest_first(s, x)[i]
                == x || s.contains(insert_newest_first(s, x)[i]),
        insert_newest_first(s, x).to_multiset() == s.to_multiset().insert(x),
    decreases s.len(),
{
    broadcast use vstd::seq_lib::group_to_multiset_ensures;

    if s.len() > 0 && s.last().0 < x.0 {
        let d = s.drop_last();
        lemma_insert_elements(d, x);
        let r = insert_newest_first(d, x);
        assert forall|i: int|
            0 <= i < insert_newest_first(s, x).len() implies #[trigger] insert_newest_first(s, x)[i]
            == x || s.contains(insert_newest_first(s, x)[i]) by {
            if i < r.len() {
                if r[i] != x {
                    let j = choose|j: int| 0 <= j < d.len() && d[j] == r[i];
                    assert(s[j] == r[i]);
                }
            } else {
                assert(s[s.len() - 1] == s.last());
            }
        }
        assert(s == d.push(s.last()));
        assert(r.push(s.last()).to_multiset() =~= s.to_multiset().insert(x));
    } else if s.len() > 0 {
        assert forall|i: int|
            0 <= i < insert_newest_first(s, x).len() implies #[trigger] insert_newest_first(s, x)[i]
            == x || s.contains(insert_newest_first(s, x)[i]) by {
            if i < s.len() {
                assert(s.contains(s[i]));
            }
        }
    } else {
        assert(seq![x] == Seq::<(i64, T)>::empty().push(x));
    }
}

proof fn lemma_insert_sorted<T>(s: Seq<(i64, T)>, x: (i64, T))
    requires
        newest_first(s),
    ensures
        newest_first(insert_newest_first(s, x)),
    decreases s.len(),
{
    if s.len() > 0 && s.last().0 < x.0 {
        let d = s.drop_last();
        assert(newest_first(d));
        lemma_insert_sorted(d, x);
        lemma_insert_elements(d, x);
        let r = insert_newest_first(d, x);
        assert forall|i: int| 0 <= i < r.len() implies #[trigger] r[i].0 >= s.last().0 by {
            if r[i] != x {
                let j = choose|j: int| 0 <= j < d.len() && d[j] == r[i];
                assert(s[j] == d[j]);
            }
        }
    }
}

/// Sorting newest first orders the entries by time, descending, and keeps every entry
/// exactly as often as it occurred.
pub proof fn law_sort_orders_and_permutes<T>(s: Seq<(i64, T)>)
    ensures
        newest_first(sorted_newest_first(s)),
        sorted_newest_first(s).to_multiset() == s.to_multiset(),
        sorted_newest_first(s).len() == s.len(),
    decreases s.len(),
{
    broadcast use vstd::seq_lib::group_to_multiset_ensures;

    if s.len() > 0 {
        let d = s.drop_last();
        law_sort_orders_and_permutes(d);
        lemma_insert_sorted(sorted_newest_first(d), s.last());
        lemma_insert_elements(sorted_newest_first(d), s.last());
        assert(s == d.push(s.last()));
    }
}

// ---------------------------------------------------------------- paging

/// The part of the listing one page shows.
pub struct PageWindow {
    /// The page number, at least one.
    pub page: usize,
    /// The number of GIFs per page.
    pub limit: usize,
    /// The first position shown.
    pub start: usize,
    /// One past the last position shown.
    pub end: usize,
}

/// The page a request asks for: page one where none or zero is given.
pub open spec fn page_of(page: Option<usize>) -> nat {
    match page {
        Some(p) => if p >= 1 {
            p as nat
        } else {
            1
        },
        None => 1,
    }
}

/// The page size a request asks for: twenty where none is given.
pub open spec fn limit_of(limit: Option<usize>) -> nat {
    match limit {
        Some(l) => l as nat,
        None => 20,
    }
}

/// Which positions of a listing of `total` GIFs a request for `page` pages of `limit` shows:
/// from `(page - 1) * limit` to `page * limit`, cut at the end of the listing; none where the
/// page starts past it.
pub fn page_window(page: Option<usize>, limit: Option<usize>, total: usize) -> (w: PageWindow)
    requires
        page_of(page) * limit_of(limit) <= usize::MAX,
    ensures
        w.page == page_of(page),
        w.limit == limit_of(limit),
        w.start <= w.end <= total,
        (page_of(page) - 1) * limit_of(limit) < total ==> w.start == (page_of(page) - 1)
            * limit_of(limit) && w.end == if page_of(page) * limit_of(limit) < total {
            page_of(page) * limit_of(limit)
        } else {
            total as nat
        },
        (page_of(page) - 1) * limit_of(limit) >= total ==> w.start == w.end,
{
    let p = match page {
        Some(p) => if p >= 1 {
            p
        } else {
            1
        },
        None => 1,
    };
    let l = match limit {
        Some(l) => l,
        None => 20,
    };
    proof {
        assert((p - 1) * l <= p * l) by (nonlinear_arith);
        assert((p - 1) * l == p * l - l) by (nonlinear_arith);
    }
    let end_index = p * l;
    let start_index = end_index - l;
    if start_index < total {
        let end = if end_index < total {
            end_index
        } else {
            total
        };
        PageWindow { page: p, limit: l, start: start_index, end }
    } else {
        PageWindow { page: p, limit: l, start: 0, end: 0 }
    }
}

// ---------------------------------------------------------------- walking the storage listing

/// What to do after one page of the storage listing arrived.
pub enum ListingStep {
    /// The listing is complete.
    Done,
    /// Ask for the next page, with this continuation token (none where the reply gave none).
    Next(Option<String>),
}

/// After a page of the storage listing: ask for another page exactly when the reply says it
/// was truncated, passing on the continuation token it gave.
pub fn next_listing_step(is_truncated: Option<bool>, next_token: Option<String>) -> (step: ListingStep)
    ensures
        match step {
            ListingStep::Done => is_truncated != Some(true),
            ListingStep::Next(t) => is_truncated == Some(true) && t == next_token,
        },
{
    match is_truncated {
        Some(true) => ListingStep::Next(next_token),
        _ => ListingStep::Done,
    }
}

// ---------------------------------------------------------------- capping a log

/// Keeps only the last `max` entries of a log, dropping the oldest.
pub fn keep_last<T>(log: &mut Vec<T>, max: usize)
    ensures
        old(log)@.len() <= max ==> final(log)@ == old(log)@,
        old(log)@.len() > max ==> final(log)@ == old(log)@.skip(old(log)@.len() - max),
{
    if log.len() > max {
        let excess = log.len() - max;
        let tail = log.split_off(excess);
        *log = tail;
    }
}

} // verus!
