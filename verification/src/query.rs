//! The query engine: pure functions over one snapshot answering "entries
//! departing from stop X", with optional future-only and per-direction-limit
//! filtering, and "list of known stops".

use vstd::prelude::*;
use crate::model::{views_of_entries, Entry, EntryView, Snapshot};

verus! {

/// The entries the future-only filter keeps, in their original order: all of
/// them when `future_only` is false, otherwise exactly those arriving at or
/// after `sample_time`.
pub open spec fn future_sel(es: Seq<EntryView>, sample_time: int, future_only: bool) -> Seq<
    EntryView,
>
    decreases es.len(),
{
    if es.len() == 0 {
        Seq::empty()
    } else {
        let prefix = future_sel(es.drop_last(), sample_time, future_only);
        if !future_only || es.last().arriving_at >= sample_time {
            prefix.push(es.last())
        } else {
            prefix
        }
    }
}

/// The subsequence of entries whose direction equals `dir`, in their
/// original order.
pub open spec fn entries_with_dir(es: Seq<EntryView>, dir: Seq<char>) -> Seq<EntryView>
    decreases es.len(),
{
    if es.len() == 0 {
        Seq::empty()
    } else {
        let prefix = entries_with_dir(es.drop_last(), dir);
        if es.last().direction == dir {
            prefix.push(es.last())
        } else {
            prefix
        }
    }
}

/// How many entries of `es` share the direction `dir`.
pub open spec fn dir_count(es: Seq<EntryView>, dir: Seq<char>) -> int {
    entries_with_dir(es, dir).len() as int
}

/// The entries the per-direction limit keeps: an entry stays exactly when
/// fewer than `limit` entries of the same direction precede it.
pub open spec fn limit_sel(es: Seq<EntryView>, limit: int) -> Seq<EntryView>
    decreases es.len(),
{
    if es.len() == 0 {
        Seq::empty()
    } else {
        let prefix = limit_sel(es.drop_last(), limit);
        if dir_count(es.drop_last(), es.last().direction) < limit {
            prefix.push(es.last())
        } else {
            prefix
        }
    }
}

/// What a stop query returns for one stop's entry list: the future-only
/// filter first, then, when `limit` is positive, the per-direction limit;
/// zero or negative means no limit.
pub open spec fn query_spec(
    es: Seq<EntryView>,
    sample_time: int,
    future_only: bool,
    limit: int,
) -> Seq<EntryView> {
    let f = future_sel(es, sample_time, future_only);
    if limit > 0 {
        limit_sel(f, limit)
    } else {
        f
    }
}

/// The future-only filter passes every entry through when it is off.
pub proof fn lemma_future_sel_off(es: Seq<EntryView>, sample_time: int)
    ensures
        future_sel(es, sample_time, false) == es,
    decreases es.len(),
{
    if es.len() == 0 {
        assert(future_sel(es, sample_time, false) =~= es);
    } else {
        lemma_future_sel_off(es.drop_last(), sample_time);
        assert(es.drop_last().push(es.last()) =~= es);
    }
}

/// Every entry the future-only filter keeps arrives at or after the sample
/// time.
pub proof fn lemma_future_sel_bounds(es: Seq<EntryView>, sample_time: int)
    ensures
        forall|i: int|
            0 <= i < future_sel(es, sample_time, true).len() ==> future_sel(
                es,
                sample_time,
                true,
            )[i].arriving_at >= sample_time,
    decreases es.len(),
{
    if es.len() > 0 {
        lemma_future_sel_bounds(es.drop_last(), sample_time);
        let fp = future_sel(es.drop_last(), sample_time, true);
        let fs = future_sel(es, sample_time, true);
        assert forall|i: int| 0 <= i < fs.len() implies fs[i].arriving_at >= sample_time by {
            if i < fp.len() {
                assert(fs[i] == fp[i]);
            }
        }
    }
}

/// Law (future-only filter correctness): with no per-direction limit, the
/// future-only result is exactly the subset of the unlimited result whose
/// arrival is at or after the snapshot's sample time, in the same order, and
/// every entry of it arrives at or after the sample time.
pub proof fn lemma_future_only_subset(es: Seq<EntryView>, sample_time: int)
    ensures
        query_spec(es, sample_time, true, 0) == future_sel(
            query_spec(es, sample_time, false, 0),
            sample_time,
            true,
        ),
        forall|i: int|
            0 <= i < query_spec(es, sample_time, true, 0).len() ==> query_spec(
                es,
                sample_time,
                true,
                0,
            )[i].arriving_at >= sample_time,
{
    lemma_future_sel_off(es, sample_time);
    lemma_future_sel_bounds(es, sample_time);
}

/// How `entries_with_dir` grows when one entry is appended.
proof fn lemma_entries_with_dir_push(s: Seq<EntryView>, e: EntryView, dir: Seq<char>)
    ensures
        entries_with_dir(s.push(e), dir) == if e.direction == dir {
            entries_with_dir(s, dir).push(e)
        } else {
            entries_with_dir(s, dir)
        },
{
    assert(s.push(e).drop_last() =~= s);
    assert(s.push(e).last() == e);
}

/// Law (per-direction limit correctness): for a positive limit, the entries
/// of any one direction that survive the limit are a prefix, in original
/// order, of that direction's entries, of length the smaller of the limit
/// and that direction's count; in particular at most `limit` survivors share
/// a direction.
pub proof fn lemma_limit_per_direction(es: Seq<EntryView>, limit: int, dir: Seq<char>)
    requires
        limit > 0,
    ensures
        entries_with_dir(limit_sel(es, limit), dir) == entries_with_dir(es, dir).take(
            if limit <= dir_count(es, dir) {
                limit
            } else {
                dir_count(es, dir)
            },
        ),
        dir_count(limit_sel(es, limit), dir) <= limit,
    decreases es.len(),
{
    if es.len() == 0 {
        assert(entries_with_dir(limit_sel(es, limit), dir) =~= entries_with_dir(es, dir).take(0));
    } else {
        let p = es.drop_last();
        let e = es.last();
        lemma_limit_per_direction(p, limit, dir);
        let kept = dir_count(p, e.direction) < limit;
        if kept {
            lemma_entries_with_dir_push(limit_sel(p, limit), e, dir);
        }
        if e.direction == dir {
            let c = dir_count(p, dir);
            let f = entries_with_dir(p, dir);
            assert(entries_with_dir(es, dir) == f.push(e));
            assert(dir_count(es, dir) == c + 1);
            if kept {
                // fewer than `limit` earlier entries share the direction: the
                // survivor list gains the entry, and both sides are the whole
                // of the direction's entries so far.
                assert(f.take(if limit <= c {
                    limit
                } else {
                    c
                }) =~= f);
                assert(f.push(e).take(c + 1) =~= f.push(e));
                assert(entries_with_dir(limit_sel(es, limit), dir) == f.push(e));
            } else {
                // the limit is already reached: the survivor list is the
                // first `limit` entries of the direction, with or without
                // the appended entry.
                assert(f.push(e).take(limit) =~= f.take(limit));
            }
        } else {
            assert(entries_with_dir(es, dir) == entries_with_dir(p, dir));
            assert(dir_count(es, dir) == dir_count(p, dir));
        }
    }
}

/// Law (per-direction limit on query results): for a positive limit, a stop
/// query's result holds at most `limit` entries of any one direction, and
/// they are a prefix, in original order, of that direction's entries after
/// the future-only filter.
pub proof fn lemma_query_limit_per_direction(
    es: Seq<EntryView>,
    sample_time: int,
    future_only: bool,
    limit: int,
    dir: Seq<char>,
)
    requires
        limit > 0,
    ensures
        dir_count(query_spec(es, sample_time, future_only, limit), dir) <= limit,
        entries_with_dir(query_spec(es, sample_time, future_only, limit), dir)
            == entries_with_dir(future_sel(es, sample_time, future_only), dir).take(
            if limit <= dir_count(future_sel(es, sample_time, future_only), dir) {
                limit
            } else {
                dir_count(future_sel(es, sample_time, future_only), dir)
            },
        ),
{
    lemma_limit_per_direction(future_sel(es, sample_time, future_only), limit, dir);
}

/// The entries departing from the stop named `stop_name`, filtered.
///
/// An unknown stop yields an empty list, never an error. With `future_only`,
/// entries arriving strictly before the snapshot's sample time are dropped;
/// with a positive `limit_per_direction`, each direction independently keeps
/// only its first matches in original order.
pub fn entries_from(
    snapshot: &Snapshot,
    stop_name: &String,
    future_only: bool,
    limit_per_direction: i64,
) -> (r: Vec<Entry>)
    ensures
        views_of_entries(r@) == match snapshot@.stop_entries(stop_name@) {
            Some(es) => query_spec(
                es,
                snapshot@.sample_time,
                future_only,
                limit_per_direction as int,
            ),
            None => Seq::<EntryView>::empty(),
        },
        !snapshot@.has_stop(stop_name@) ==> r@.len() == 0,
{
    let row = find_stop_row(snapshot, stop_name);
    match row {
        None => {
            let r: Vec<Entry> = Vec::new();
            proof {
                assert(views_of_entries(r@) =~= Seq::<EntryView>::empty());
            }
            r
        },
        Some(entries) => {
            let ghost es = views_of_entries(entries@);
            let ghost st = snapshot@.sample_time;
            let n = entries.len();
            let mut filtered: Vec<Entry> = Vec::new();
            let mut k: usize = 0;
            proof {
                assert(views_of_entries(filtered@) =~= Seq::<EntryView>::empty());
                assert(es.take(0) =~= Seq::<EntryView>::empty());
            }
            while k < n
                invariant
                    n == entries.len(),
                    k <= n,
                    es == views_of_entries(entries@),
                    st == snapshot@.sample_time,
                    views_of_entries(filtered@) == future_sel(es.take(k as int), st, future_only),
                decreases n - k,
            {
                proof {
                    assert(es.take(k as int + 1).drop_last() =~= es.take(k as int));
                    assert(es.take(k as int + 1).last() == entries@[k as int]@);
                }
                if !future_only || entries[k].arriving_at >= snapshot.sample_time {
                    let ghost pre = filtered@;
                    let e = entries[k].duplicate();
                    filtered.push(e);
                    proof {
                        assert(views_of_entries(filtered@) =~= views_of_entries(pre).push(
                            entries@[k as int]@,
                        ));
                    }
                }
                k = k + 1;
            }
            proof {
                assert(es.take(n as int) =~= es);
            }
            if limit_per_direction <= 0 {
                filtered
            } else {
                let ghost f = views_of_entries(filtered@);
                let ghost limit = limit_per_direction as int;
                let fl = filtered.len();
                let mut out: Vec<Entry> = Vec::new();
                let mut k: usize = 0;
                proof {
                    assert(views_of_entries(out@) =~= Seq::<EntryView>::empty());
                    assert(f.take(0) =~= Seq::<EntryView>::empty());
                }
                while k < fl
                    invariant
                        fl == filtered.len(),
                        k <= fl,
                        limit == limit_per_direction as int,
                        limit_per_direction > 0,
                        f == views_of_entries(filtered@),
                        views_of_entries(out@) == limit_sel(f.take(k as int), limit),
                    decreases fl - k,
                {
                    let mut c: usize = 0;
                    let mut t: usize = 0;
                    proof {
                        assert(f.take(0) =~= Seq::<EntryView>::empty());
                    }
                    while t < k
                        invariant
                            fl == filtered.len(),
                            k < fl,
                            t <= k,
                            f == views_of_entries(filtered@),
                            c <= t,
                            c == dir_count(f.take(t as int), f[k as int].direction),
                        decreases k - t,
                    {
                        proof {
                            assert(f.take(t as int + 1).drop_last() =~= f.take(t as int));
                            assert(f.take(t as int + 1).last() == filtered@[t as int]@);
                        }
                        if filtered[t].direction == filtered[k].direction {
                            c = c + 1;
                        }
                        t = t + 1;
                    }
                    proof {
                        assert(f.take(k as int + 1).drop_last() =~= f.take(k as int));
                        assert(f.take(k as int + 1).last() == filtered@[k as int]@);
                    }
                    if (c as u64) < (limit_per_direction as u64) {
                        let ghost pre = out@;
                        let e = filtered[k].duplicate();
                        out.push(e);
                        proof {
                            assert(views_of_entries(out@) =~= views_of_entries(pre).push(
                                filtered@[k as int]@,
                            ));
                        }
                    }
                    k = k + 1;
                }
                proof {
                    assert(f.take(fl as int) =~= f);
                }
                out
            }
        },
    }
}

/// The entry list stored for `stop_name`, or `None` when the snapshot knows
/// no such stop.
fn find_stop_row<'a>(snapshot: &'a Snapshot, stop_name: &String) -> (r: Option<&'a Vec<Entry>>)
    ensures
        match r {
            Some(entries) => snapshot@.stop_entries(stop_name@) == Some(
                views_of_entries(entries@),
            ),
            None => snapshot@.stop_entries(stop_name@) is None,
        },
{
    let n = snapshot.by_stop.len();
    let mut i: usize = 0;
    proof {
        assert(snapshot@.by_stop.skip(0) =~= snapshot@.by_stop);
    }
    while i < n
        invariant
            n == snapshot.by_stop.len(),
            i <= n,
            snapshot@.stop_entries(stop_name@) == crate::model::assoc_lookup(
                snapshot@.by_stop.skip(i as int),
                stop_name@,
            ),
        decreases n - i,
    {
        let row = &snapshot.by_stop[i];
        proof {
            assert(snapshot@.by_stop.skip(i as int)[0] == crate::model::view_of_stop_row(
                snapshot.by_stop@[i as int],
            ));
        }
        if row.0 == *stop_name {
            return Some(&row.1);
        }
        proof {
            assert(snapshot@.by_stop.skip(i as int).drop_first() =~= snapshot@.by_stop.skip(
                i as int + 1,
            ));
        }
        i = i + 1;
    }
    proof {
        assert(snapshot@.by_stop.skip(n as int) =~= Seq::<
            (Seq<char>, Seq<EntryView>),
        >::empty());
    }
    None
}

/// The display names of every stop the snapshot knows, in table order (the
/// set of known stops; no particular order is guaranteed). On a well-formed
/// snapshot — which the refresh cycle always publishes — each known stop is
/// named exactly once.
pub fn list_stops(snapshot: &Snapshot) -> (r: Vec<String>)
    ensures
        r@.len() == snapshot@.by_stop.len(),
        forall|i: int| 0 <= i < r@.len() ==> r@[i]@ == snapshot@.by_stop[i].0,
        snapshot@.wf() ==> forall|i: int, j: int| 0 <= i < j < r@.len() ==> r@[i]@ != r@[j]@,
{
    let n = snapshot.by_stop.len();
    let mut r: Vec<String> = Vec::new();
    let mut i: usize = 0;
    while i < n
        invariant
            n == snapshot.by_stop.len(),
            i <= n,
            r@.len() == i,
            forall|j: int| 0 <= j < i ==> r@[j]@ == snapshot@.by_stop[j].0,
        decreases n - i,
    {
        r.push(snapshot.by_stop[i].0.clone());
        i = i + 1;
    }
    r
}

} // verus!
