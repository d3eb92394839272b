//! The feed transformer: converts one decoded feed message into the list of
//! entries it predicts, resolving stop names through the directory and
//! applying an optional single-stop filter.

use vstd::prelude::*;
use vstd::string::StringExecFns;
use crate::feed::{FeedEntityView, FeedMessage, StopTimeUpdateView};
use crate::model::{assoc_lookup, lemma_assoc_lookup_member, views_of_entries, Entry, EntryView};
use crate::stops::StopNames;

verus! {

/// The display name the directory resolves for a stop-time update, `None`
/// when the update has no stop id or the id is unknown.
pub open spec fn resolved_stop_name(
    dir: Seq<(Seq<char>, Seq<char>)>,
    stu: StopTimeUpdateView,
) -> Option<Seq<char>> {
    match stu.stop_id {
        Some(id) => assoc_lookup(dir, id),
        None => None,
    }
}

/// The entry one stop-time update of a trip becomes: absent fields turn into
/// the sentinels `"??"` and `"Unknown"`, absent times into zero.
pub open spec fn entry_of(
    dir: Seq<(Seq<char>, Seq<char>)>,
    route_id: Option<Seq<char>>,
    stu: StopTimeUpdateView,
) -> EntryView {
    EntryView {
        stop: match resolved_stop_name(dir, stu) {
            Some(n) => n,
            None => "??"@,
        },
        line: match route_id {
            Some(r) => r,
            None => "Unknown"@,
        },
        direction: match stu.stop_id {
            Some(id) => id,
            None => "??"@,
        },
        arriving_at: match stu.arrival_time {
            Some(t) => t,
            None => 0,
        },
        leaving_at: match stu.departure_time {
            Some(t) => t,
            None => 0,
        },
    }
}

/// Whether a stop-time update survives the stop filter: an empty filter keeps
/// everything, a non-empty filter keeps exactly the updates whose resolved
/// display name equals it, so absent or unresolved names never match.
pub open spec fn keeps_stop_time(
    dir: Seq<(Seq<char>, Seq<char>)>,
    stu: StopTimeUpdateView,
    filter: Seq<char>,
) -> bool {
    filter.len() == 0 || resolved_stop_name(dir, stu) == Some(filter)
}

/// The entries one trip update contributes, in feed encounter order.
pub open spec fn trip_entries(
    dir: Seq<(Seq<char>, Seq<char>)>,
    route_id: Option<Seq<char>>,
    stus: Seq<StopTimeUpdateView>,
    filter: Seq<char>,
) -> Seq<EntryView>
    decreases stus.len(),
{
    if stus.len() == 0 {
        Seq::empty()
    } else {
        let prefix = trip_entries(dir, route_id, stus.drop_last(), filter);
        if keeps_stop_time(dir, stus.last(), filter) {
            prefix.push(entry_of(dir, route_id, stus.last()))
        } else {
            prefix
        }
    }
}

/// The entries one feed entity contributes: those of its trip update, or none
/// when it carries no trip update.
pub open spec fn entity_entries(
    dir: Seq<(Seq<char>, Seq<char>)>,
    entity: FeedEntityView,
    filter: Seq<char>,
) -> Seq<EntryView> {
    match entity.trip_update {
        Some(tu) => trip_entries(dir, tu.route_id, tu.stop_time_updates, filter),
        None => Seq::empty(),
    }
}

/// The entries a whole feed contributes, entity by entity in feed order.
pub open spec fn feed_entries(
    dir: Seq<(Seq<char>, Seq<char>)>,
    entities: Seq<FeedEntityView>,
    filter: Seq<char>,
) -> Seq<EntryView>
    decreases entities.len(),
{
    if entities.len() == 0 {
        Seq::empty()
    } else {
        feed_entries(dir, entities.drop_last(), filter) + entity_entries(
            dir,
            entities.last(),
            filter,
        )
    }
}

/// Converts one decoded feed message into its feed timestamp and the list of
/// entries it predicts.
///
/// An empty `stop_filter` keeps every entry; a non-empty one keeps exactly
/// the entries whose resolved display name equals it. Entities without a trip
/// update are ignored silently. The returned timestamp is the feed header's,
/// zero when absent.
pub fn transform(msg: &FeedMessage, stops: &StopNames, stop_filter: &String) -> (r: (
    i64,
    Vec<Entry>,
))
    ensures
        r.0 as int == msg@.timestamp_or_zero(),
        views_of_entries(r.1@) == feed_entries(stops@, msg@.entities, stop_filter@),
{
    let ts: i64 = match msg.header_timestamp {
        Some(t) => t,
        None => 0,
    };
    let empty_filter = String::new();
    let no_filter: bool = *stop_filter == empty_filter;
    proof {
        if stop_filter@.len() == 0 {
            assert(stop_filter@ =~= Seq::<char>::empty());
        }
    }
    let mut res: Vec<Entry> = Vec::new();
    let n = msg.entities.len();
    let mut i: usize = 0;
    proof {
        assert(views_of_entries(res@) =~= Seq::<EntryView>::empty());
        assert(msg@.entities.take(0) =~= Seq::<FeedEntityView>::empty());
    }
    while i < n
        invariant
            n == msg.entities.len(),
            i <= n,
            no_filter == (stop_filter@ == Seq::<char>::empty()),
            views_of_entries(res@) == feed_entries(
                stops@,
                msg@.entities.take(i as int),
                stop_filter@,
            ),
        decreases n - i,
    {
        let ghost pre_entity = feed_entries(stops@, msg@.entities.take(i as int), stop_filter@);
        let entity = &msg.entities[i];
        if let Some(tu) = &entity.trip_update {
            let m = tu.stop_time_updates.len();
            let mut j: usize = 0;
            proof {
                assert(tu@.stop_time_updates.take(0) =~= Seq::<StopTimeUpdateView>::empty());
                assert(views_of_entries(res@) =~= pre_entity + trip_entries(
                    stops@,
                    tu@.route_id,
                    tu@.stop_time_updates.take(0),
                    stop_filter@,
                ));
            }
            while j < m
                invariant
                    n == msg.entities.len(),
                    i < n,
                    m == tu.stop_time_updates.len(),
                    j <= m,
                    no_filter == (stop_filter@ == Seq::<char>::empty()),
                    tu@ == msg.entities@[i as int]@.trip_update.unwrap(),
                    msg.entities@[i as int]@.trip_update is Some,
                    pre_entity == feed_entries(stops@, msg@.entities.take(i as int), stop_filter@),
                    views_of_entries(res@) == pre_entity + trip_entries(
                        stops@,
                        tu@.route_id,
                        tu@.stop_time_updates.take(j as int),
                        stop_filter@,
                    ),
                decreases m - j,
            {
                let stu = &tu.stop_time_updates[j];
                let resolved: Option<&String> = match &stu.stop_id {
                    Some(id) => stops.lookup(id),
                    None => None,
                };
                let keep: bool = if no_filter {
                    true
                } else {
                    match resolved {
                        Some(name) => *name == *stop_filter,
                        None => false,
                    }
                };
                proof {
                    if stop_filter@.len() == 0 {
                        assert(stop_filter@ =~= Seq::<char>::empty());
                    }
                    assert(keep == keeps_stop_time(stops@, stu@, stop_filter@));
                }
                if keep {
                    let stop_s: String = match resolved {
                        Some(name) => name.clone(),
                        None => String::from_str("??"),
                    };
                    let line_s: String = match &tu.route_id {
                        Some(r) => r.clone(),
                        None => String::from_str("Unknown"),
                    };
                    let dir_s: String = match &stu.stop_id {
                        Some(id) => id.clone(),
                        None => String::from_str("??"),
                    };
                    let arr: i64 = match stu.arrival_time {
                        Some(t) => t,
                        None => 0,
                    };
                    let dep: i64 = match stu.departure_time {
                        Some(t) => t,
                        None => 0,
                    };
                    let ghost pre_res = res@;
                    let e = Entry {
                        stop: stop_s,
                        line: line_s,
                        direction: dir_s,
                        arriving_at: arr,
                        leaving_at: dep,
                    };
                    proof {
                        assert(e@ == entry_of(stops@, tu@.route_id, stu@));
                    }
                    res.push(e);
                    proof {
                        assert(views_of_entries(res@) =~= views_of_entries(pre_res).push(e@));
                    }
                }
                proof {
                    let stus = tu@.stop_time_updates;
                    assert(stus.take(j as int + 1).drop_last() =~= stus.take(j as int));
                    assert(stus.take(j as int + 1).last() == stu@);
                    let prefix = trip_entries(stops@, tu@.route_id, stus.take(j as int),
                    stop_filter@);
                    if keep {
                        assert(pre_entity + prefix.push(entry_of(stops@, tu@.route_id, stu@))
                            =~= (pre_entity + prefix).push(entry_of(stops@, tu@.route_id, stu@)));
                    }
                }
                j = j + 1;
            }
            proof {
                assert(tu@.stop_time_updates.take(m as int) =~= tu@.stop_time_updates);
            }
        } else {
            proof {
                assert(views_of_entries(res@) =~= pre_entity + Seq::<EntryView>::empty());
            }
        }
        proof {
            assert(msg@.entities.take(i as int + 1).drop_last() =~= msg@.entities.take(i as int));
            assert(msg@.entities.take(i as int + 1).last() == msg.entities@[i as int]@);
        }
        i = i + 1;
    }
    proof {
        assert(msg@.entities.take(n as int) =~= msg@.entities);
    }
    (ts, res)
}

/// Law (sentinel completeness): an entry built from a stop-time update with
/// missing optional fields carries the documented sentinels, never an absent
/// field: an absent route yields the non-empty line `"Unknown"`, an absent or
/// unresolved stop id yields the non-empty sentinel `"??"` for the stop name
/// and (when the id is absent) for the direction, and absent times default
/// to zero.
pub proof fn lemma_sentinel_completeness(
    dir: Seq<(Seq<char>, Seq<char>)>,
    route_id: Option<Seq<char>>,
    stu: StopTimeUpdateView,
)
    ensures
        route_id is None ==> entry_of(dir, route_id, stu).line == "Unknown"@ && entry_of(
            dir,
            route_id,
            stu,
        ).line.len() > 0,
        stu.stop_id is None ==> entry_of(dir, route_id, stu).stop == "??"@ && entry_of(
            dir,
            route_id,
            stu,
        ).direction == "??"@ && entry_of(dir, route_id, stu).stop.len() > 0,
        resolved_stop_name(dir, stu) is None ==> entry_of(dir, route_id, stu).stop == "??"@,
        stu.arrival_time is None ==> entry_of(dir, route_id, stu).arriving_at == 0,
        stu.departure_time is None ==> entry_of(dir, route_id, stu).leaving_at == 0,
        entry_of(dir, route_id, stu).line == "Unknown"@ || (route_id matches Some(r)
            && entry_of(dir, route_id, stu).line == r),
        entry_of(dir, route_id, stu).direction == "??"@ || (stu.stop_id matches Some(id)
            && entry_of(dir, route_id, stu).direction == id),
        entry_of(dir, route_id, stu).stop == "??"@ || exists|k: int|
            0 <= k < dir.len() && dir[k].1 == entry_of(dir, route_id, stu).stop,
{
    reveal_strlit("??");
    reveal_strlit("Unknown");
    if resolved_stop_name(dir, stu) is Some {
        lemma_assoc_lookup_member(dir, stu.stop_id.unwrap());
    }
}

/// Whether an entry is one the feed transformation can produce under the
/// given directory and stop filter: it is `entry_of` some stop-time update
/// that survives the filter.
pub open spec fn produced_by(
    dir: Seq<(Seq<char>, Seq<char>)>,
    filter: Seq<char>,
    e: EntryView,
) -> bool {
    exists|route_id: Option<Seq<char>>, stu: StopTimeUpdateView|
        keeps_stop_time(dir, stu, filter) && e == entry_of(dir, route_id, stu)
}

/// Every entry a trip update contributes is produced by `entry_of` from one
/// of its stop-time updates that survives the filter.
proof fn lemma_trip_entries_produced(
    dir: Seq<(Seq<char>, Seq<char>)>,
    route_id: Option<Seq<char>>,
    stus: Seq<StopTimeUpdateView>,
    filter: Seq<char>,
)
    ensures
        forall|i: int|
            0 <= i < trip_entries(dir, route_id, stus, filter).len() ==> produced_by(
                dir,
                filter,
                trip_entries(dir, route_id, stus, filter)[i],
            ),
    decreases stus.len(),
{
    if stus.len() > 0 {
        lemma_trip_entries_produced(dir, route_id, stus.drop_last(), filter);
        let prefix = trip_entries(dir, route_id, stus.drop_last(), filter);
        let full = trip_entries(dir, route_id, stus, filter);
        assert forall|i: int| 0 <= i < full.len() implies produced_by(dir, filter, full[i]) by {
            if i < prefix.len() {
                assert(full[i] == prefix[i]);
            } else {
                assert(keeps_stop_time(dir, stus.last(), filter) && full[i] == entry_of(
                    dir,
                    route_id,
                    stus.last(),
                ));
            }
        }
    }
}

/// Law (provenance of transformed entries): every entry the transformation
/// of a whole feed yields is `entry_of` some trip's stop-time update that
/// survives the stop filter — so the sentinel discipline of
/// `lemma_sentinel_completeness` holds of every produced entry.
pub proof fn lemma_feed_entries_produced(
    dir: Seq<(Seq<char>, Seq<char>)>,
    entities: Seq<FeedEntityView>,
    filter: Seq<char>,
)
    ensures
        forall|i: int|
            0 <= i < feed_entries(dir, entities, filter).len() ==> produced_by(
                dir,
                filter,
                feed_entries(dir, entities, filter)[i],
            ),
    decreases entities.len(),
{
    if entities.len() > 0 {
        lemma_feed_entries_produced(dir, entities.drop_last(), filter);
        let prefix = feed_entries(dir, entities.drop_last(), filter);
        let rest = entity_entries(dir, entities.last(), filter);
        let full = feed_entries(dir, entities, filter);
        match entities.last().trip_update {
            Some(tu) => {
                lemma_trip_entries_produced(dir, tu.route_id, tu.stop_time_updates, filter);
            },
            None => {},
        }
        assert forall|i: int| 0 <= i < full.len() implies produced_by(dir, filter, full[i]) by {
            if i < prefix.len() {
                assert(full[i] == prefix[i]);
            } else {
                assert(full[i] == rest[i - prefix.len()]);
            }
        }
    }
}

} // verus!
