//! The refresh cycle's decision logic: what one tick does to the store.
//!
//! The surrounding runtime performs the outside work of a cycle — waiting
//! for the tick, fetching the raw feed bytes, decoding them — and hands the
//! outcome here. On any failure the previously published snapshot is kept
//! untouched; the only retry policy is "try again next tick". On success the
//! transformed entries are grouped by stop, wrapped into a brand-new
//! snapshot, and published wholesale.

use vstd::prelude::*;
use crate::feed::FeedMessage;
use crate::model::{
    assoc_lookup,
    lemma_assoc_lookup_found,
    view_of_stop_row,
    views_of_entries,
    views_of_stop_rows,
    Entry,
    EntryView,
    Snapshot,
};
use crate::stops::StopNames;
use crate::store::SnapshotStore;
use crate::transform::{feed_entries, transform};

verus! {

/// Why one refresh cycle was abandoned. Both kinds are recovered locally:
/// the cycle is dropped and the previous snapshot stays published.
#[derive(Clone, Copy, PartialEq, Eq, Structural, Debug)]
pub enum CycleError {
    /// Network failure, timeout, or a non-success status from the upstream
    /// feed source.
    Transport,
    /// Malformed or unparseable feed payload.
    Decode,
}

/// The subsequence of entries whose stop name equals `name`, in their
/// original order.
pub open spec fn entries_with_stop(es: Seq<EntryView>, name: Seq<char>) -> Seq<EntryView>
    decreases es.len(),
{
    if es.len() == 0 {
        Seq::empty()
    } else {
        let prefix = entries_with_stop(es.drop_last(), name);
        if es.last().stop == name {
            prefix.push(es.last())
        } else {
            prefix
        }
    }
}

/// What a per-stop table built from `es` answers for `name`: the entries
/// whose stop is `name`, in order, or `None` when no entry has that stop.
pub open spec fn grouped_lookup(es: Seq<EntryView>, name: Seq<char>) -> Option<Seq<EntryView>> {
    if entries_with_stop(es, name).len() > 0 {
        Some(entries_with_stop(es, name))
    } else {
        None
    }
}

/// How `entries_with_stop` grows when one entry is appended.
proof fn lemma_entries_with_stop_push(s: Seq<EntryView>, e: EntryView, name: Seq<char>)
    ensures
        entries_with_stop(s.push(e), name) == if e.stop == name {
            entries_with_stop(s, name).push(e)
        } else {
            entries_with_stop(s, name)
        },
{
    assert(s.push(e).drop_last() =~= s);
    assert(s.push(e).last() == e);
}

/// How first-match lookup behaves when one row is appended: an existing key
/// keeps its value, a new key gains the appended one.
proof fn lemma_assoc_push<V>(m: Seq<(Seq<char>, V)>, p: (Seq<char>, V), key: Seq<char>)
    ensures
        assoc_lookup(m.push(p), key) == if assoc_lookup(m, key) is Some {
            assoc_lookup(m, key)
        } else if p.0 == key {
            Some(p.1)
        } else {
            None::<V>
        },
    decreases m.len(),
{
    if m.len() == 0 {
        assert(m.push(p)[0] == p);
        assert(m.push(p).drop_first() =~= Seq::<(Seq<char>, V)>::empty());
    } else {
        assert(m.push(p)[0] == m[0]);
        assert(m.push(p).drop_first() =~= m.drop_first().push(p));
        lemma_assoc_push(m.drop_first(), p, key);
    }
}

/// Whether the table under construction already has a row for `stop`.
fn has_row(rows: &Vec<(String, Vec<Entry>)>, stop: &String) -> (r: bool)
    ensures
        r == (assoc_lookup(views_of_stop_rows(rows@), stop@) is Some),
{
    let n = rows.len();
    let mut i: usize = 0;
    proof {
        assert(views_of_stop_rows(rows@).skip(0) =~= views_of_stop_rows(rows@));
    }
    while i < n
        invariant
            n == rows.len(),
            i <= n,
            assoc_lookup(views_of_stop_rows(rows@), stop@) == assoc_lookup(
                views_of_stop_rows(rows@).skip(i as int),
                stop@,
            ),
        decreases n - i,
    {
        proof {
            assert(views_of_stop_rows(rows@).skip(i as int)[0] == view_of_stop_row(
                rows@[i as int],
            ));
        }
        if rows[i].0 == *stop {
            return true;
        }
        proof {
            assert(views_of_stop_rows(rows@).skip(i as int).drop_first()
                =~= views_of_stop_rows(rows@).skip(i as int + 1));
        }
        i = i + 1;
    }
    proof {
        assert(views_of_stop_rows(rows@).skip(n as int) =~= Seq::<
            (Seq<char>, Seq<EntryView>),
        >::empty());
    }
    false
}

/// Groups entries by stop display name into a fresh per-stop table.
///
/// Each stop present among the entries gets exactly one row, keyed by its
/// name and carrying that stop's entries in their original encounter order;
/// no other row exists, and no two rows share a key.
pub fn group_by_stop(entries: &Vec<Entry>) -> (r: Vec<(String, Vec<Entry>)>)
    ensures
        forall|name: Seq<char>| #![auto]
            assoc_lookup(views_of_stop_rows(r@), name) == grouped_lookup(
                views_of_entries(entries@),
                name,
            ),
        forall|a: int, b: int| 0 <= a < b < r@.len() ==> r@[a].0@ != r@[b].0@,
{
    let ghost es = views_of_entries(entries@);
    let n = entries.len();
    let mut r: Vec<(String, Vec<Entry>)> = Vec::new();
    let mut i: usize = 0;
    proof {
        assert(views_of_stop_rows(r@) =~= Seq::<(Seq<char>, Seq<EntryView>)>::empty());
        assert(es.take(0) =~= Seq::<EntryView>::empty());
    }
    while i < n
        invariant
            n == entries.len(),
            i <= n,
            es == views_of_entries(entries@),
            forall|name: Seq<char>| #![auto]
                assoc_lookup(views_of_stop_rows(r@), name) == if entries_with_stop(
                    es.take(i as int),
                    name,
                ).len() > 0 {
                    Some(entries_with_stop(es, name))
                } else {
                    None::<Seq<EntryView>>
                },
            forall|a: int, b: int| 0 <= a < b < r@.len() ==> r@[a].0@ != r@[b].0@,
        decreases n - i,
    {
        let stop = &entries[i].stop;
        proof {
            assert(es.take(i as int + 1).drop_last() =~= es.take(i as int));
            assert(es.take(i as int + 1).last() == entries@[i as int]@);
        }
        if !has_row(&r, stop) {
            let mut group: Vec<Entry> = Vec::new();
            let mut j: usize = 0;
            proof {
                assert(views_of_entries(group@) =~= Seq::<EntryView>::empty());
                assert(es.take(0) =~= Seq::<EntryView>::empty());
            }
            while j < n
                invariant
                    n == entries.len(),
                    i < n,
                    j <= n,
                    es == views_of_entries(entries@),
                    stop@ == entries@[i as int]@.stop,
                    views_of_entries(group@) == entries_with_stop(es.take(j as int), stop@),
                decreases n - j,
            {
                proof {
                    assert(es.take(j as int + 1).drop_last() =~= es.take(j as int));
                    assert(es.take(j as int + 1).last() == entries@[j as int]@);
                }
                if entries[j].stop == *stop {
                    let ghost pre = group@;
                    group.push(entries[j].duplicate());
                    proof {
                        assert(views_of_entries(group@) =~= views_of_entries(pre).push(
                            entries@[j as int]@,
                        ));
                    }
                }
                j = j + 1;
            }
            proof {
                assert(es.take(n as int) =~= es);
            }
            let ghost pre_rows = r@;
            r.push((stop.clone(), group));
            proof {
                assert(views_of_stop_rows(r@) =~= views_of_stop_rows(pre_rows).push(
                    view_of_stop_row(r@.last()),
                ));
                assert forall|name: Seq<char>| #![auto]
                    assoc_lookup(views_of_stop_rows(r@), name) == (if entries_with_stop(
                        es.take(i as int + 1),
                        name,
                    ).len() > 0 {
                        Some(entries_with_stop(es, name))
                    } else {
                        None::<Seq<EntryView>>
                    }) by {
                    lemma_assoc_push(
                        views_of_stop_rows(pre_rows),
                        view_of_stop_row(r@.last()),
                        name,
                    );
                    lemma_entries_with_stop_push(
                        es.take(i as int),
                        entries@[i as int]@,
                        name,
                    );
                }
                assert forall|a: int, b: int| 0 <= a < b < r@.len() implies r@[a].0@
                    != r@[b].0@ by {
                    if b == r@.len() - 1 && r@[a].0@ == stop@ {
                        // the key was absent from the table, so no earlier
                        // row can hold it
                        assert(views_of_stop_rows(pre_rows)[a].0 == stop@);
                        lemma_assoc_lookup_found(views_of_stop_rows(pre_rows), stop@);
                    }
                }
            }
        } else {
            proof {
                assert forall|name: Seq<char>| #![auto]
                    assoc_lookup(views_of_stop_rows(r@), name) == (if entries_with_stop(
                        es.take(i as int + 1),
                        name,
                    ).len() > 0 {
                        Some(entries_with_stop(es, name))
                    } else {
                        None::<Seq<EntryView>>
                    }) by {
                    lemma_entries_with_stop_push(
                        es.take(i as int),
                        entries@[i as int]@,
                        name,
                    );
                }
            }
        }
        i = i + 1;
    }
    proof {
        assert(es.take(n as int) =~= es);
    }
    r
}

/// Wraps transformed entries into a brand-new snapshot, grouped by stop.
pub fn build_snapshot(entries: &Vec<Entry>, feed_timestamp: i64, sample_time: i64) -> (s: Snapshot)
    ensures
        s@.sample_time == sample_time as int,
        s@.feed_timestamp == feed_timestamp as int,
        forall|name: Seq<char>| #![auto]
            s@.stop_entries(name) == grouped_lookup(views_of_entries(entries@), name),
        s@.wf(),
{
    let rows = group_by_stop(entries);
    let s = Snapshot { sample_time, feed_timestamp, by_stop: rows };
    proof {
        assert forall|a: int, b: int| 0 <= a < b < s@.by_stop.len() implies s@.by_stop[a].0
            != s@.by_stop[b].0 by {
            assert(s@.by_stop[a].0 == s.by_stop@[a].0@);
            assert(s@.by_stop[b].0 == s.by_stop@[b].0@);
        }
    }
    s
}

/// Applies the outcome of one refresh cycle to the store.
///
/// A failed cycle — transport or decode — leaves the published snapshot
/// untouched. A successful one transforms the decoded feed with no stop
/// filter, groups the entries by stop, and publishes the fresh snapshot
/// carrying the feed's header timestamp and this cycle's sample time.
pub fn refresh_cycle(
    store: &mut SnapshotStore,
    stops: &StopNames,
    fetched: Result<FeedMessage, CycleError>,
    sample_time: i64,
)
    ensures
        match fetched {
            Result::Err(_) => final(store)@ == old(store)@,
            Result::Ok(msg) => final(store)@.sample_time == sample_time as int
                && final(store)@.feed_timestamp == msg@.timestamp_or_zero()
                && final(store)@.wf()
                && forall|name: Seq<char>| #![auto]
                final(store)@.stop_entries(name) == grouped_lookup(
                    feed_entries(stops@, msg@.entities, Seq::<char>::empty()),
                    name,
                ),
        },
{
    match fetched {
        Result::Err(_) => {},
        Result::Ok(msg) => {
            let no_filter = String::new();
            let (feed_timestamp, entries) = transform(&msg, stops, &no_filter);
            let snapshot = build_snapshot(&entries, feed_timestamp, sample_time);
            store.publish(snapshot);
        },
    }
}

} // verus!
