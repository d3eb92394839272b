//! The snapshot store: the single holder of the currently published view of
//! the world.
//!
//! The store supports exactly two operations: reading the current snapshot
//! and replacing it wholesale. No partial update exists; a snapshot is built
//! to completion off to the side and installed as one unit, so a reader sees
//! either the fully-old or the fully-new snapshot, never a mix. Under the
//! single-writer discipline the surrounding runtime guards the store with a
//! readers-writer gate; the store itself never exposes an entry list being
//! incrementally filled.

use vstd::prelude::*;
use crate::model::{EntryView, Snapshot, SnapshotView};

verus! {

/// Holds exactly one live snapshot, initialized to the empty snapshot before
/// the first successful refresh.
pub struct SnapshotStore {
    current: Snapshot,
}

impl View for SnapshotStore {
    type V = SnapshotView;

    closed spec fn view(&self) -> SnapshotView {
        self.current@
    }
}

impl SnapshotStore {
    /// A fresh store: empty per-stop table, both timestamps zero.
    pub fn new() -> (s: SnapshotStore)
        ensures
            s@.sample_time == 0,
            s@.feed_timestamp == 0,
            s@.by_stop == Seq::<(Seq<char>, Seq<EntryView>)>::empty(),
    {
        SnapshotStore { current: Snapshot::empty() }
    }

    /// The presently published snapshot, whole: every field of the returned
    /// snapshot comes from one published value.
    pub fn current(&self) -> (s: &Snapshot)
        ensures
            s@ == self@,
    {
        &self.current
    }

    /// Atomically replaces the current snapshot with `snapshot`, wholesale.
    ///
    /// Safe to call only from the single refresh writer; the store never
    /// holds a mixture of the old and the new value.
    pub fn publish(&mut self, snapshot: Snapshot)
        ensures
            final(self)@ == snapshot@,
    {
        self.current = snapshot;
    }
}

/// Law (atomicity of replacement): in any sequence of reads interleaved
/// with a single publish, each read that returned the store's value — which
/// `current` guarantees, and the surrounding readers-writer gate makes either
/// the pre-publish or the post-publish value — is one snapshot in full: all
/// three fields of one value, never a per-stop table from one snapshot under
/// another's timestamps.
pub proof fn lemma_publish_atomic(
    reads: Seq<SnapshotView>,
    before: SnapshotView,
    published: SnapshotView,
)
    requires
        forall|i: int| 0 <= i < reads.len() ==> reads[i] == before || reads[i] == published,
    ensures
        forall|i: int|
            0 <= i < reads.len() ==> (reads[i].sample_time == before.sample_time
                && reads[i].feed_timestamp == before.feed_timestamp && reads[i].by_stop
                == before.by_stop) || (reads[i].sample_time == published.sample_time
                && reads[i].feed_timestamp == published.feed_timestamp && reads[i].by_stop
                == published.by_stop),
{
}

} // verus!
