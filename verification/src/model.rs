//! The record model: one predicted stop visit (`Entry`) and the immutable
//! per-refresh view of the world (`Snapshot`).

use vstd::prelude::*;

verus! {

/// One predicted stop visit.
///
/// All textual fields are always present; absence in the upstream feed is
/// represented by a sentinel string (`"??"` for stop and direction,
/// `"Unknown"` for the line), never by omission, so downstream JSON stays
/// stable. Times are absolute Unix seconds, `0` when the feed omits them.
pub struct Entry {
    /// Display name of the station, or `"??"` if unresolved.
    pub stop: String,
    /// Route identifier, or `"Unknown"` if absent.
    pub line: String,
    /// Raw stop-id string, a proxy for direction/platform, or `"??"`.
    pub direction: String,
    /// Predicted arrival, Unix seconds; `0` if the feed omits it.
    pub arriving_at: i64,
    /// Predicted departure, Unix seconds; `0` if the feed omits it.
    pub leaving_at: i64,
}

/// The mathematical value of an [`Entry`].
pub ghost struct EntryView {
    pub stop: Seq<char>,
    pub line: Seq<char>,
    pub direction: Seq<char>,
    pub arriving_at: int,
    pub leaving_at: int,
}

impl View for Entry {
    type V = EntryView;

    open spec fn view(&self) -> EntryView {
        EntryView {
            stop: self.stop@,
            line: self.line@,
            direction: self.direction@,
            arriving_at: self.arriving_at as int,
            leaving_at: self.leaving_at as int,
        }
    }
}

impl Entry {
    /// A deep copy whose mathematical value equals the original's.
    pub fn duplicate(&self) -> (r: Entry)
        ensures
            r@ == self@,
    {
        Entry {
            stop: self.stop.clone(),
            line: self.line.clone(),
            direction: self.direction.clone(),
            arriving_at: self.arriving_at,
            leaving_at: self.leaving_at,
        }
    }
}

/// The mathematical values of a sequence of entries.
pub open spec fn views_of_entries(es: Seq<Entry>) -> Seq<EntryView> {
    es.map_values(|e: Entry| e@)
}

/// First-match lookup in an association list keyed by strings.
///
/// Both the stop directory and a snapshot's per-stop table are association
/// lists; their executable lookups scan from the front, and this function is
/// their meaning.
pub open spec fn assoc_lookup<V>(m: Seq<(Seq<char>, V)>, key: Seq<char>) -> Option<V>
    decreases m.len(),
{
    if m.len() == 0 {
        None
    } else if m[0].0 == key {
        Some(m[0].1)
    } else {
        assoc_lookup(m.drop_first(), key)
    }
}

/// A successful first-match lookup returns a value the list holds under the
/// looked-up key.
pub proof fn lemma_assoc_lookup_member<V>(m: Seq<(Seq<char>, V)>, key: Seq<char>)
    requires
        assoc_lookup(m, key) is Some,
    ensures
        exists|k: int|
            0 <= k < m.len() && m[k].0 == key && m[k].1 == assoc_lookup(m, key).unwrap(),
    decreases m.len(),
{
    if m[0].0 == key {
        assert(m[0].0 == key && m[0].1 == assoc_lookup(m, key).unwrap());
    } else {
        lemma_assoc_lookup_member(m.drop_first(), key);
        let k0 = choose|k: int|
            0 <= k < m.drop_first().len() && m.drop_first()[k].0 == key && m.drop_first()[k].1
                == assoc_lookup(m.drop_first(), key).unwrap();
        assert(m[k0 + 1].0 == key && m[k0 + 1].1 == assoc_lookup(m, key).unwrap());
    }
}

/// A key some row holds is found by first-match lookup.
pub proof fn lemma_assoc_lookup_found<V>(m: Seq<(Seq<char>, V)>, key: Seq<char>)
    requires
        exists|k: int| 0 <= k < m.len() && m[k].0 == key,
    ensures
        assoc_lookup(m, key) is Some,
    decreases m.len(),
{
    if m[0].0 != key {
        let k0 = choose|k: int| 0 <= k < m.len() && m[k].0 == key;
        assert(m.drop_first()[k0 - 1].0 == key);
        lemma_assoc_lookup_found(m.drop_first(), key);
    }
}

/// An immutable, fully-formed view of the world at one refresh cycle.
///
/// Once constructed a snapshot is never mutated: updating the cache always
/// means constructing a brand-new snapshot and swapping it in wholesale.
pub struct Snapshot {
    /// Wall-clock Unix seconds at which the refresh that built this snapshot
    /// began.
    pub sample_time: i64,
    /// The timestamp embedded in the upstream feed header, Unix seconds.
    pub feed_timestamp: i64,
    /// Entries grouped by stop display name, each stop's entries in feed
    /// encounter order (no time-sortedness is guaranteed).
    pub by_stop: Vec<(String, Vec<Entry>)>,
}

/// The mathematical value of a [`Snapshot`].
pub ghost struct SnapshotView {
    pub sample_time: int,
    pub feed_timestamp: int,
    pub by_stop: Seq<(Seq<char>, Seq<EntryView>)>,
}

/// The mathematical value of one stop's row in the per-stop table.
pub open spec fn view_of_stop_row(row: (String, Vec<Entry>)) -> (Seq<char>, Seq<EntryView>) {
    (row.0@, views_of_entries(row.1@))
}

/// The mathematical value of the whole per-stop table.
pub open spec fn views_of_stop_rows(rows: Seq<(String, Vec<Entry>)>) -> Seq<
    (Seq<char>, Seq<EntryView>),
> {
    rows.map_values(|row: (String, Vec<Entry>)| view_of_stop_row(row))
}

impl View for Snapshot {
    type V = SnapshotView;

    open spec fn view(&self) -> SnapshotView {
        SnapshotView {
            sample_time: self.sample_time as int,
            feed_timestamp: self.feed_timestamp as int,
            by_stop: views_of_stop_rows(self.by_stop@),
        }
    }
}

impl SnapshotView {
    /// The entries recorded for `name`, or `None` when the snapshot knows no
    /// such stop.
    pub open spec fn stop_entries(self, name: Seq<char>) -> Option<Seq<EntryView>> {
        assoc_lookup(self.by_stop, name)
    }

    /// Whether the snapshot has a row for `name`.
    pub open spec fn has_stop(self, name: Seq<char>) -> bool {
        self.stop_entries(name) is Some
    }

    /// Well-formedness of the per-stop table: it is a genuine mapping — no
    /// display name keys two rows, so the keys form a set.
    pub open spec fn wf(self) -> bool {
        forall|i: int, j: int|
            0 <= i < j < self.by_stop.len() ==> self.by_stop[i].0 != self.by_stop[j].0
    }
}

impl Snapshot {
    /// The empty snapshot the store holds before the first successful
    /// refresh: no stops, both timestamps zero.
    pub fn empty() -> (s: Snapshot)
        ensures
            s@.sample_time == 0,
            s@.feed_timestamp == 0,
            s@.by_stop == Seq::<(Seq<char>, Seq<EntryView>)>::empty(),
    {
        let s = Snapshot { sample_time: 0, feed_timestamp: 0, by_stop: Vec::new() };
        proof {
            assert(s@.by_stop =~= Seq::<(Seq<char>, Seq<EntryView>)>::empty());
        }
        s
    }
}

} // verus!
