//! A refresh-and-publish cache for a real-time transit feed.
//!
//! The library owns the current view of the world: a snapshot of predicted
//! stop visits, refreshed periodically from an unreliable upstream source and
//! served to any number of readers. Verified here are the record model, the
//! feed-to-entry transformation, the snapshot store's wholesale replacement
//! discipline, the query filters, and the refresh-cycle decision logic.

mod feed;
mod model;
mod query;
mod refresh;
mod stops;
mod store;
mod transform;

pub use feed::FeedEntity;
pub use feed::FeedEntityView;
pub use feed::FeedMessage;
pub use feed::FeedMessageView;
pub use feed::StopTimeUpdate;
pub use feed::StopTimeUpdateView;
pub use feed::TripUpdate;
pub use feed::TripUpdateView;
pub use model::Entry;
pub use model::EntryView;
pub use model::Snapshot;
pub use model::SnapshotView;
pub use model::assoc_lookup;
pub use model::lemma_assoc_lookup_member;
pub use model::view_of_stop_row;
pub use model::views_of_entries;
pub use model::views_of_stop_rows;
pub use query::dir_count;
pub use query::entries_from;
pub use query::entries_with_dir;
pub use query::future_sel;
pub use query::lemma_future_only_subset;
pub use query::lemma_future_sel_bounds;
pub use query::lemma_future_sel_off;
pub use query::lemma_limit_per_direction;
pub use query::lemma_query_limit_per_direction;
pub use query::limit_sel;
pub use query::list_stops;
pub use query::query_spec;
pub use refresh::build_snapshot;
pub use refresh::entries_with_stop;
pub use refresh::group_by_stop;
pub use refresh::grouped_lookup;
pub use refresh::refresh_cycle;
pub use refresh::CycleError;
pub use stops::StopNames;
pub use store::lemma_publish_atomic;
pub use store::SnapshotStore;
pub use transform::entry_of;
pub use transform::feed_entries;
pub use transform::keeps_stop_time;
pub use transform::lemma_feed_entries_produced;
pub use transform::lemma_sentinel_completeness;
pub use transform::produced_by;
pub use transform::resolved_stop_name;
pub use transform::transform;
pub use transform::trip_entries;
