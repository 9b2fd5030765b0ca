//! What the machine-readable document says, part by part.

use crate::text::signed;
use crate::top::clock::{seconds_between, Timestamp};
use crate::top::snapshot::{
    active_secs, alert_shown, describes, event_shown, head_shown, raised_at, slowest_shown,
    sources_shown, Snapshot, Source,
};
use crate::top::state::{AlertEvent, App};
use vstd::prelude::*;

verus! {

/// A head's statistics stand in the document each under its own name, as the head reported them, and
/// only where it reported any.
pub proof fn law_statistics_are_shown_as_reported(app: App, now: Timestamp, s: Snapshot, i: int)
    requires
        describes(app, now, s),
        0 <= i < app.heads@.len(),
    ensures
        s.heads@.len() == app.heads@.len(),
        s.heads@[i].stats is Some <==> app.heads@[i].stats is Some,
        app.heads@[i].stats matches Some(reported) ==> ({
            let stats = s.heads@[i].stats->0;
            &&& stats.uptime_seconds == reported.uptime_seconds
            &&& stats.req_now == reported.local_requests.rate.now
            &&& stats.req_1m == reported.local_requests.rate.load1m
            &&& stats.blocks_now == reported.blocks.block_rate.now
            &&& stats.minor == reported.blocks.minor
            &&& stats.major == reported.blocks.major
            &&& stats.mempool == reported.mempool_size
            &&& stats.headroom == reported.sequencer_headroom
            &&& stats.secs_since_hard == reported.stacks.seconds_since_last_hard_confirm
            &&& stats.soft_ms == reported.block_timings.soft_consensus.avg_millis
            &&& stats.rejected_screening == reported.local_requests.rejected_screening
            &&& stats.rejected_backpressure == reported.local_requests.rejected_backpressure
        }),
{
    assert(head_shown(app.heads@[i], now, s.heads@[i]));
}

/// A head stands in the document under its name, with what it said of its readiness and its version,
/// whether it answers, how far it is confirmed, and the newest 60 samples of its request history in
/// order.
pub proof fn law_heads_are_shown_as_they_stand(app: App, now: Timestamp, s: Snapshot, i: int)
    requires
        describes(app, now, s),
        0 <= i < app.heads@.len(),
    ensures
        ({
            let h = app.heads@[i];
            let shown = s.heads@[i];
            &&& shown.name@ == h.name@
            &&& shown.reachable == h.reachable
            &&& shown.ready is Some <==> h.ready is Some
            &&& h.ready is Some ==> shown.ready->0@ == h.ready->0@
            &&& shown.version is Some <==> h.version is Some
            &&& h.version is Some ==> shown.version->0@ == h.version->0@
            &&& shown.hard_tip == h.hard_tip
            &&& h.req_hist@.len() <= 60 ==> shown.req_hist@.len() == h.req_hist@.len()
            &&& h.req_hist@.len() > 60 ==> shown.req_hist@.len() == 60
            &&& forall|k: int|
                0 <= k < shown.req_hist@.len() ==> #[trigger] shown.req_hist@[k]
                    == h.req_hist@[h.req_hist@.len() - shown.req_hist@.len() + k]
        }),
{
    assert(head_shown(app.heads@[i], now, s.heads@[i]));
}

/// The newest block stands in the document with its number, its type, its status, its version as two
/// numbers with a dot between, and the seconds until its fallback window where it has one.
pub proof fn law_newest_block_is_shown_as_reported(app: App, now: Timestamp, s: Snapshot, i: int)
    requires
        describes(app, now, s),
        0 <= i < app.heads@.len(),
    ensures
        s.heads@[i].tip is Some <==> app.heads@[i].latest_block is Some,
        app.heads@[i].latest_block matches Some(b) ==> ({
            let tip = s.heads@[i].tip->0;
            &&& tip.number == b.number
            &&& tip.block_type@ == b.block_type@
            &&& tip.status@ == b.status@
            &&& tip.version@ == signed(b.version_major as int) + "."@ + signed(
                b.version_minor as int,
            )
            &&& tip.fallback_in_secs is Some <==> b.fallback_at is Some
            &&& b.fallback_at is Some ==> tip.fallback_in_secs->0 == seconds_between(
                b.fallback_at->0@,
                now@,
            )
        }),
{
    assert(head_shown(app.heads@[i], now, s.heads@[i]));
}

/// The sources of a head's requests: the head itself first, always live, then its peers in the order
/// reported, each live exactly where it sent anything within a minute; each with its own total and
/// rates.
pub proof fn law_sources_are_shown_as_reported(app: App, now: Timestamp, s: Snapshot, i: int, k: int)
    requires
        describes(app, now, s),
        0 <= i < app.heads@.len(),
        app.heads@[i].stats is Some,
        0 <= k < app.heads@[i].stats->0.peer_requests@.len(),
    ensures
        ({
            let stats = app.heads@[i].stats->0;
            let rows = s.heads@[i].peers->0@;
            let peer = stats.peer_requests@[k];
            &&& s.heads@[i].peers is Some
            &&& rows.len() == 1 + stats.peer_requests@.len()
            &&& rows[k + 1].source == Source::Peer(peer.peer)
            &&& rows[k + 1].total == peer.total
            &&& rows[k + 1].now == peer.rate.now
            &&& rows[k + 1].load1m == peer.rate.load1m
            &&& rows[k + 1].load5m == peer.rate.load5m
            &&& rows[k + 1].live <==> 0 < peer.rate.load1m.bits <= 0x7ff0_0000_0000_0000
        }),
{
    assert(head_shown(app.heads@[i], now, s.heads@[i]));
    assert(s.heads@[i].peers->0@ == sources_shown(app.heads@[i].stats->0));
}

/// The head's own row of requests, and the first eight at most of the slowest blocks it led; neither
/// without statistics.
pub proof fn law_own_load_and_slowest_are_shown(app: App, now: Timestamp, s: Snapshot, i: int)
    requires
        describes(app, now, s),
        0 <= i < app.heads@.len(),
    ensures
        s.heads@[i].peers is Some <==> app.heads@[i].stats is Some,
        s.heads@[i].slowest is Some <==> app.heads@[i].stats is Some,
        app.heads@[i].stats matches Some(stats) ==> ({
            let own = s.heads@[i].peers->0@[0];
            let slowest = s.heads@[i].slowest->0@;
            let led = stats.block_timings.lead.top@;
            &&& s.heads@[i].peers->0@.len() == 1 + stats.peer_requests@.len()
            &&& own.source == Source::Local
            &&& own.total == stats.local_requests.total
            &&& own.now == stats.local_requests.rate.now
            &&& own.load1m == stats.local_requests.rate.load1m
            &&& own.load5m == stats.local_requests.rate.load5m
            &&& own.live
            &&& led.len() <= 8 ==> slowest.len() == led.len()
            &&& led.len() > 8 ==> slowest.len() == 8
            &&& forall|k: int|
                0 <= k < slowest.len() ==> {
                    &&& (#[trigger] slowest[k]).block_number == led[k].block_number
                    &&& slowest[k].millis == led[k].millis
                    &&& slowest[k].requests == led[k].requests
                }
        }),
{
    assert(head_shown(app.heads@[i], now, s.heads@[i]));
    if let Some(stats) = app.heads@[i].stats {
        assert(s.heads@[i].peers->0@ == sources_shown(stats));
        assert(s.heads@[i].slowest->0@ == slowest_shown(stats));
    }
}

/// Whether an event raised the alert of a key: it is no clearing, and has the key, or, where it has
/// none, the key for its text.
pub open spec fn raises(event: AlertEvent, key: Seq<char>) -> bool {
    &&& !event.cleared
    &&& event.key@.len() > 0 ==> event.key@ == key
    &&& event.key@.len() == 0 ==> event.text@ == key
}

/// Whether the event at `k` is the newest that raised the alert of a key.
pub open spec fn last_raise(log: Seq<AlertEvent>, key: Seq<char>, k: int) -> bool {
    &&& 0 <= k < log.len()
    &&& raises(log[k], key)
    &&& forall|j: int| k < j < log.len() ==> !raises(#[trigger] log[j], key)
}

/// An alert was raised when the newest event says so that raised it, and at no moment where none did.
pub proof fn law_raised_by_the_last_raise(log: Seq<AlertEvent>, key: Seq<char>)
    ensures
        match raised_at(log, key) {
            Some(at) => exists|k: int| #[trigger] last_raise(log, key, k) && log[k].at_unix == at,
            None => forall|j: int| 0 <= j < log.len() ==> !raises(#[trigger] log[j], key),
        },
    decreases log.len(),
{
    if log.len() > 0 {
        let front = log.drop_last();
        law_raised_by_the_last_raise(front, key);
        assert(log[log.len() - 1] == log.last());
        if raises(log.last(), key) {
            assert(last_raise(log, key, log.len() - 1));
        } else {
            assert forall|j: int| 0 <= j < front.len() implies front[j] == #[trigger] log[j] by {}
            match raised_at(front, key) {
                Some(at) => {
                    let k = choose|k: int| #[trigger]
                        last_raise(front, key, k) && front[k].at_unix == at;
                    assert forall|j: int| k < j < log.len() implies !raises(#[trigger] log[j], key) by {
                        if j < front.len() {
                            assert(!raises(front[j], key));
                        }
                    }
                    assert(last_raise(log, key, k));
                },
                None => {
                    assert forall|j: int| 0 <= j < log.len() implies !raises(
                        #[trigger] log[j],
                        key,
                    ) by {
                        if j < front.len() {
                            assert(!raises(front[j], key));
                        }
                    }
                },
            }
        }
    }
}

/// An alert stands in the document with its rank and its text, and with the seconds since the newest
/// event that raised it, none below zero; without such an event, with none.
pub proof fn law_alerts_are_shown_as_they_stand(app: App, now: Timestamp, s: Snapshot, i: int)
    requires
        describes(app, now, s),
        0 <= i < app.alerts@.len(),
    ensures
        s.alerts@.len() == app.alerts@.len(),
        s.generated_at == now@.0,
        ({
            let a = app.alerts@[i];
            let shown = s.alerts@[i];
            &&& shown.crit == a.crit
            &&& shown.text@ == a.text@
            &&& shown.active_secs is None <==> forall|j: int|
                0 <= j < app.alert_log@.len() ==> !raises(#[trigger] app.alert_log@[j], a.key@)
            &&& shown.active_secs matches Some(secs) ==> exists|k: int|
                {
                    &&& #[trigger] last_raise(app.alert_log@, a.key@, k)
                    &&& now@.0 < app.alert_log@[k].at_unix ==> secs == 0
                    &&& now@.0 >= app.alert_log@[k].at_unix && now@.0 - app.alert_log@[k].at_unix
                        <= i64::MAX ==> secs == now@.0 - app.alert_log@[k].at_unix
                }
        }),
{
    assert(alert_shown(app.alerts@[i], app.alert_log@, now@.0, s.alerts@[i]));
    let key = app.alerts@[i].key@;
    law_raised_by_the_last_raise(app.alert_log@, key);
    match raised_at(app.alert_log@, key) {
        Some(at) => {
            let k = choose|k: int| #[trigger]
                last_raise(app.alert_log@, key, k) && app.alert_log@[k].at_unix == at;
            assert(raises(app.alert_log@[k], key));
            assert(s.alerts@[i].active_secs == active_secs(app.alert_log@, key, now@.0));
        },
        None => {},
    }
}

/// The document's log is the newest 50 events at most, the newest first, each with its moment, its
/// text, its rank and whether it cleared.
pub proof fn law_log_is_shown_newest_first(app: App, now: Timestamp, s: Snapshot, i: int)
    requires
        describes(app, now, s),
    ensures
        app.alert_log@.len() <= 50 ==> s.alert_log@.len() == app.alert_log@.len(),
        app.alert_log@.len() > 50 ==> s.alert_log@.len() == 50,
        0 <= i < s.alert_log@.len() ==> {
            let event = app.alert_log@[app.alert_log@.len() - 1 - i];
            &&& s.alert_log@[i].at == event.at_unix
            &&& s.alert_log@[i].text@ == event.text@
            &&& s.alert_log@[i].crit == event.crit
            &&& s.alert_log@[i].cleared == event.cleared
        },
{
    if 0 <= i < s.alert_log@.len() {
        assert(event_shown(app.alert_log@[app.alert_log@.len() - 1 - i], s.alert_log@[i]));
    }
}

} // verus!
