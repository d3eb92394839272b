//! A plain-value model of one decoded upstream feed message.
//!
//! The upstream feed arrives as a binary-encoded message; decoding it is the
//! collaborator's job, outside this library. What the transformation logic
//! reads of a decoded message is held here as plain values: an optional
//! header timestamp and, per entity, an optional trip update with its
//! stop-time updates.

use vstd::prelude::*;

verus! {

/// One predicted arrival/departure at one stop for one trip.
pub struct StopTimeUpdate {
    /// The raw stop identifier, absent when the feed omits it.
    pub stop_id: Option<String>,
    /// Predicted arrival, Unix seconds, absent when the feed omits it.
    pub arrival_time: Option<i64>,
    /// Predicted departure, Unix seconds, absent when the feed omits it.
    pub departure_time: Option<i64>,
}

/// The mathematical value of a [`StopTimeUpdate`].
pub ghost struct StopTimeUpdateView {
    pub stop_id: Option<Seq<char>>,
    pub arrival_time: Option<int>,
    pub departure_time: Option<int>,
}

impl View for StopTimeUpdate {
    type V = StopTimeUpdateView;

    open spec fn view(&self) -> StopTimeUpdateView {
        StopTimeUpdateView {
            stop_id: match self.stop_id {
                Some(id) => Some(id@),
                None => None,
            },
            arrival_time: match self.arrival_time {
                Some(t) => Some(t as int),
                None => None,
            },
            departure_time: match self.departure_time {
                Some(t) => Some(t as int),
                None => None,
            },
        }
    }
}

/// One vehicle's predicted schedule: a route and its stop-time updates.
pub struct TripUpdate {
    /// The route identifier, absent when the feed omits it.
    pub route_id: Option<String>,
    /// The predicted stop visits of this trip, in feed order.
    pub stop_time_updates: Vec<StopTimeUpdate>,
}

/// The mathematical value of a [`TripUpdate`].
pub ghost struct TripUpdateView {
    pub route_id: Option<Seq<char>>,
    pub stop_time_updates: Seq<StopTimeUpdateView>,
}

/// The mathematical values of a sequence of stop-time updates.
pub open spec fn views_of_stop_time_updates(us: Seq<StopTimeUpdate>) -> Seq<StopTimeUpdateView> {
    us.map_values(|u: StopTimeUpdate| u@)
}

impl View for TripUpdate {
    type V = TripUpdateView;

    open spec fn view(&self) -> TripUpdateView {
        TripUpdateView {
            route_id: match self.route_id {
                Some(r) => Some(r@),
                None => None,
            },
            stop_time_updates: views_of_stop_time_updates(self.stop_time_updates@),
        }
    }
}

/// One feed entity; only entities carrying a trip update contribute entries.
pub struct FeedEntity {
    /// The trip update, absent for entities of other kinds.
    pub trip_update: Option<TripUpdate>,
}

/// The mathematical value of a [`FeedEntity`].
pub ghost struct FeedEntityView {
    pub trip_update: Option<TripUpdateView>,
}

impl View for FeedEntity {
    type V = FeedEntityView;

    open spec fn view(&self) -> FeedEntityView {
        FeedEntityView {
            trip_update: match self.trip_update {
                Some(tu) => Some(tu@),
                None => None,
            },
        }
    }
}

/// One decoded feed message.
pub struct FeedMessage {
    /// The timestamp of the feed header, Unix seconds, absent when the feed
    /// omits it.
    pub header_timestamp: Option<i64>,
    /// Every entity of the feed, in feed order.
    pub entities: Vec<FeedEntity>,
}

/// The mathematical value of a [`FeedMessage`].
pub ghost struct FeedMessageView {
    pub header_timestamp: Option<int>,
    pub entities: Seq<FeedEntityView>,
}

/// The mathematical values of a sequence of feed entities.
pub open spec fn views_of_entities(es: Seq<FeedEntity>) -> Seq<FeedEntityView> {
    es.map_values(|e: FeedEntity| e@)
}

impl View for FeedMessage {
    type V = FeedMessageView;

    open spec fn view(&self) -> FeedMessageView {
        FeedMessageView {
            header_timestamp: match self.header_timestamp {
                Some(t) => Some(t as int),
                None => None,
            },
            entities: views_of_entities(self.entities@),
        }
    }
}

impl FeedMessageView {
    /// The feed timestamp the transformation reports: the header's timestamp,
    /// defaulting to zero when absent.
    pub open spec fn timestamp_or_zero(self) -> int {
        match self.header_timestamp {
            Some(t) => t,
            None => 0,
        }
    }
}

} // verus!
