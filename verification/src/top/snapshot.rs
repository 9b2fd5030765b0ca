//! One document describing everything the dashboard knows, so a script or an agent reads the same
//! state the terminal draws.

use crate::text::{push_signed, same_text, signed};
use crate::top::clock::{
    on_the_calendar, seconds_between, Timestamp, CALENDAR_END, CALENDAR_START,
};
use crate::top::poll::text_view;
use crate::top::state::{
    newest, Alert, AlertEvent, App, BlockTiming, HeadState, HeadStats, LatestBlockInfo, RateStats,
    Reading,
};
use std::collections::VecDeque;
use vstd::prelude::*;
use vstd::std_specs::vecdeque::*;

verus! {

/// How many samples of a history the document carries.
pub const SNAPSHOT_HISTORY: usize = 60;

/// How many of the slowest blocks are shown.
pub const SLOWEST: usize = 8;

/// How many events of the alert log the document carries.
pub const SNAPSHOT_EVENTS: usize = 50;

/// The newest block.
pub struct TipSnapshot {
    pub number: u64,
    pub block_type: String,
    pub status: String,
    pub version: String,
    pub fallback_in_secs: Option<i64>,
}

/// A head's statistics.
#[derive(Clone, Copy, PartialEq, Eq, Debug, Structural)]
pub struct StatsSnapshot {
    pub uptime_seconds: u64,
    pub req_now: Reading,
    pub req_1m: Reading,
    pub blocks_now: Reading,
    pub minor: u64,
    pub major: u64,
    pub mempool: i64,
    pub headroom: i64,
    pub secs_since_hard: i64,
    pub soft_ms: Reading,
    pub rejected_screening: u64,
    pub rejected_backpressure: u64,
}

/// Where requests come from.
#[derive(Clone, Copy, PartialEq, Eq, Debug, Structural)]
pub enum Source {
    Local,
    Peer(i64),
}

/// Who is driving a head. The head itself is listed alongside the peers deliberately: the
/// interesting reading is the share, and a peer's row means nothing without the local row beside
/// it.
#[derive(Clone, Copy, PartialEq, Eq, Debug, Structural)]
pub struct SourceSnapshot {
    pub source: Source,
    pub total: u64,
    pub now: Reading,
    pub load1m: Reading,
    pub load5m: Reading,
    /// A peer that has sent nothing for a minute is not necessarily gone, but it is not carrying
    /// load either, and that is the distinction worth seeing.
    pub live: bool,
}

pub struct HeadSnapshot {
    pub name: String,
    pub reachable: Option<bool>,
    pub ready: Option<String>,
    pub version: Option<String>,
    pub tip: Option<TipSnapshot>,
    pub hard_tip: Option<u64>,
    pub stats: Option<StatsSnapshot>,
    pub req_hist: Vec<u64>,
    pub peers: Option<Vec<SourceSnapshot>>,
    /// The slowest blocks this head led. A tail here is where a consensus stall shows up first,
    /// long before the alert thresholds fire.
    pub slowest: Option<Vec<BlockTiming>>,
}

pub struct AlertSnapshot {
    pub crit: bool,
    pub text: String,
    pub active_secs: Option<i64>,
}

pub struct EventSnapshot {
    pub at: i64,
    pub text: String,
    pub crit: bool,
    pub cleared: bool,
}

pub struct Snapshot {
    pub generated_at: i64,
    pub alerts: Vec<AlertSnapshot>,
    pub alert_log: Vec<EventSnapshot>,
    pub heads: Vec<HeadSnapshot>,
}

/// When an alert was last raised, by the newest event that raised it.
pub open spec fn raised_at(log: Seq<AlertEvent>, key: Seq<char>) -> Option<i64>
    decreases log.len(),
{
    if log.len() == 0 {
        None
    } else if !log.last().cleared && log.last().identity() == key {
        Some(log.last().at_unix)
    } else {
        raised_at(log.drop_last(), key)
    }
}

/// Whether the seconds between two moments fit in 64 bits.
pub open spec fn apart(later: i64, earlier: i64) -> bool {
    i64::MIN <= later - earlier <= i64::MAX
}

/// The seconds from one moment to another, none where it lies before.
pub open spec fn age(later: i64, earlier: i64) -> i64 {
    if later <= earlier {
        0
    } else {
        (later - earlier) as i64
    }
}

/// How long an active alert has been raised.
pub open spec fn active_secs(log: Seq<AlertEvent>, key: Seq<char>, now: i64) -> Option<i64> {
    match raised_at(log, key) {
        Some(at) => Some(age(now, at)),
        None => None,
    }
}

/// When an alert was last raised, among the first `upto` events of a log.
pub fn find_raise(log: &VecDeque<AlertEvent>, upto: usize, key: &str) -> (r: Option<i64>)
    requires
        upto <= log@.len(),
    ensures
        r == raised_at(log@.take(upto as int), key@),
{
    let mut i: usize = upto;
    while i > 0
        invariant
            i <= upto <= log@.len(),
            raised_at(log@.take(upto as int), key@) == raised_at(log@.take(i as int), key@),
        decreases i,
    {
        let e = &log[i - 1];
        assert(log@.take(i as int).drop_last() =~= log@.take(i - 1));
        if !e.cleared && same_text(e.ident(), key) {
            return Some(e.at_unix);
        }
        i = i - 1;
    }
    None
}

/// How long an active alert has been raised, from its newest raise event.
pub fn active_for(log: &VecDeque<AlertEvent>, key: &str, now: i64) -> (r: Option<i64>)
    requires
        raised_at(log@, key@) matches Some(at) ==> apart(now, at),
    ensures
        r == active_secs(log@, key@, now),
{
    assert(log@.take(log@.len() as int) =~= log@);
    match find_raise(log, log.len(), key) {
        Some(at) => Some(secs_since(now, at)),
        None => None,
    }
}

/// The seconds from one moment to another, none where it lies before.
pub fn secs_since(later: i64, earlier: i64) -> (r: i64)
    requires
        apart(later, earlier),
    ensures
        r == age(later, earlier),
{
    if later <= earlier {
        0
    } else {
        later - earlier
    }
}

pub open spec fn stats_shown(s: HeadStats) -> StatsSnapshot {
    StatsSnapshot {
        uptime_seconds: s.uptime_seconds,
        req_now: s.local_requests.rate.now,
        req_1m: s.local_requests.rate.load1m,
        blocks_now: s.blocks.block_rate.now,
        minor: s.blocks.minor,
        major: s.blocks.major,
        mempool: s.mempool_size,
        headroom: s.sequencer_headroom,
        secs_since_hard: s.stacks.seconds_since_last_hard_confirm,
        soft_ms: s.block_timings.soft_consensus.avg_millis,
        rejected_screening: s.local_requests.rejected_screening,
        rejected_backpressure: s.local_requests.rejected_backpressure,
    }
}

pub open spec fn source_shown(source: Source, total: u64, rate: RateStats, live: bool) -> SourceSnapshot {
    SourceSnapshot {
        source,
        total,
        now: rate.now,
        load1m: rate.load1m,
        load5m: rate.load5m,
        live,
    }
}

/// The head itself, then its peers, each live where it sent anything within a minute.
pub open spec fn sources_shown(s: HeadStats) -> Seq<SourceSnapshot> {
    Seq::new(
        s.peer_requests@.len() + 1,
        |i: int|
            if i == 0 {
                source_shown(
                    Source::Local,
                    s.local_requests.total,
                    s.local_requests.rate,
                    true,
                )
            } else {
                let p = s.peer_requests@[i - 1];
                source_shown(Source::Peer(p.peer), p.total, p.rate, p.rate.load1m.positive())
            },
    )
}

/// The first few of the slowest blocks.
pub open spec fn slowest_shown(s: HeadStats) -> Seq<BlockTiming> {
    let top = s.block_timings.lead.top@;
    if top.len() <= SLOWEST {
        top
    } else {
        top.take(SLOWEST as int)
    }
}

pub open spec fn version_shown(b: LatestBlockInfo) -> Seq<char> {
    signed(b.version_major as int) + "."@ + signed(b.version_minor as int)
}

pub open spec fn tip_shown(b: LatestBlockInfo, now: Timestamp, tip: TipSnapshot) -> bool {
    &&& tip.number == b.number
    &&& tip.block_type@ == b.block_type@
    &&& tip.status@ == b.status@
    &&& tip.version@ == version_shown(b)
    &&& match (tip.fallback_in_secs, b.fallback_at) {
        (Some(secs), Some(deadline)) => secs == seconds_between(deadline@, now@),
        (None, None) => true,
        _ => false,
    }
}

/// Whether a head is shown as it stands.
pub open spec fn head_shown(h: HeadState, now: Timestamp, s: HeadSnapshot) -> bool {
    &&& s.name@ == h.name@
    &&& s.reachable == h.reachable
    &&& text_view(s.ready) == text_view(h.ready)
    &&& text_view(s.version) == text_view(h.version)
    &&& match (s.tip, h.latest_block) {
        (Some(tip), Some(b)) => tip_shown(b, now, tip),
        (None, None) => true,
        _ => false,
    }
    &&& s.hard_tip == h.hard_tip
    &&& s.req_hist@ == newest(h.req_hist@, SNAPSHOT_HISTORY as nat)
    &&& match h.stats {
        Some(stats) => {
            &&& s.stats == Some(stats_shown(stats))
            &&& s.peers matches Some(peers) && peers@ == sources_shown(stats)
            &&& s.slowest matches Some(slowest) && slowest@ == slowest_shown(stats)
        },
        None => s.stats is None && s.peers is None && s.slowest is None,
    }
}

/// Whether an alert is shown as it stands, with how long it has been active.
pub open spec fn alert_shown(
    a: Alert,
    log: Seq<AlertEvent>,
    now: i64,
    s: AlertSnapshot,
) -> bool {
    &&& s.crit == a.crit
    &&& s.text@ == a.text@
    &&& s.active_secs == active_secs(log, a.key@, now)
}

pub open spec fn event_shown(e: AlertEvent, s: EventSnapshot) -> bool {
    &&& s.at == e.at_unix
    &&& s.text@ == e.text@
    &&& s.crit == e.crit
    &&& s.cleared == e.cleared
}

/// How many of a log's events are shown.
pub open spec fn events_shown(len: nat) -> nat {
    if len <= SNAPSHOT_EVENTS {
        len
    } else {
        SNAPSHOT_EVENTS as nat
    }
}

/// Whether a document describes the dashboard's state as of a moment: every alert, the newest
/// events of the log with the newest first, and every head.
pub open spec fn describes(app: App, now: Timestamp, s: Snapshot) -> bool {
    &&& s.generated_at == now@.0
    &&& s.alerts@.len() == app.alerts@.len()
    &&& forall|i: int|
        0 <= i < app.alerts@.len() ==> alert_shown(
            app.alerts@[i],
            app.alert_log@,
            now@.0,
            #[trigger] s.alerts@[i],
        )
    &&& s.alert_log@.len() == events_shown(app.alert_log@.len())
    &&& forall|i: int|
        0 <= i < s.alert_log@.len() ==> event_shown(
            app.alert_log@[app.alert_log@.len() - 1 - i],
            #[trigger] s.alert_log@[i],
        )
    &&& s.heads@.len() == app.heads@.len()
    &&& forall|i: int|
        0 <= i < app.heads@.len() ==> head_shown(app.heads@[i], now, #[trigger] s.heads@[i])
}

fn copy_text(text: &Option<String>) -> (r: Option<String>)
    ensures
        text_view(r) == text_view(*text),
{
    match text {
        Some(text) => Some(text.clone()),
        None => None,
    }
}

/// A block's version, as it is shown.
pub fn version_text(b: &LatestBlockInfo) -> (r: String)
    ensures
        r@ == version_shown(*b),
{
    let mut out = String::new();
    push_signed(&mut out, b.version_major);
    out.append(".");
    push_signed(&mut out, b.version_minor);
    assert(out@ =~= version_shown(*b));
    out
}

fn tip_snapshot(b: &LatestBlockInfo, now: Timestamp) -> (r: TipSnapshot)
    ensures
        tip_shown(*b, now, r),
{
    let fallback_in_secs = match b.fallback_at {
        Some(deadline) => Some(deadline.seconds_since(now)),
        None => None,
    };
    TipSnapshot {
        number: b.number,
        block_type: b.block_type.clone(),
        status: b.status.clone(),
        version: version_text(b),
        fallback_in_secs,
    }
}

fn stats_snapshot(s: &HeadStats) -> (r: StatsSnapshot)
    ensures
        r == stats_shown(*s),
{
    StatsSnapshot {
        uptime_seconds: s.uptime_seconds,
        req_now: s.local_requests.rate.now,
        req_1m: s.local_requests.rate.load1m,
        blocks_now: s.blocks.block_rate.now,
        minor: s.blocks.minor,
        major: s.blocks.major,
        mempool: s.mempool_size,
        headroom: s.sequencer_headroom,
        secs_since_hard: s.stacks.seconds_since_last_hard_confirm,
        soft_ms: s.block_timings.soft_consensus.avg_millis,
        rejected_screening: s.local_requests.rejected_screening,
        rejected_backpressure: s.local_requests.rejected_backpressure,
    }
}

fn source_snapshot(source: Source, total: u64, rate: RateStats, live: bool) -> (r: SourceSnapshot)
    ensures
        r == source_shown(source, total, rate, live),
{
    SourceSnapshot {
        source,
        total,
        now: rate.now,
        load1m: rate.load1m,
        load5m: rate.load5m,
        live,
    }
}

/// Where a head's requests come from.
pub fn source_rows(s: &HeadStats) -> (r: Vec<SourceSnapshot>)
    ensures
        r@ == sources_shown(*s),
{
    let mut rows: Vec<SourceSnapshot> = Vec::new();
    rows.push(
        source_snapshot(Source::Local, s.local_requests.total, s.local_requests.rate, true),
    );
    let mut i: usize = 0;
    assert(rows@ =~= sources_shown(*s).take(1));
    while i < s.peer_requests.len()
        invariant
            i <= s.peer_requests@.len(),
            rows@ == sources_shown(*s).take(i + 1),
        decreases s.peer_requests@.len() - i,
    {
        let p = s.peer_requests[i];
        rows.push(
            source_snapshot(Source::Peer(p.peer), p.total, p.rate, p.rate.load1m.is_positive()),
        );
        assert(rows@ =~= sources_shown(*s).take(i + 2));
        i = i + 1;
    }
    assert(rows@ =~= sources_shown(*s));
    rows
}

/// The slowest blocks that a head led.
pub fn slowest_blocks(s: &HeadStats) -> (r: Vec<BlockTiming>)
    ensures
        r@ == slowest_shown(*s),
{
    let top = &s.block_timings.lead.top;
    let mut out: Vec<BlockTiming> = Vec::new();
    let mut i: usize = 0;
    while i < top.len() && i < SLOWEST
        invariant
            i <= top@.len(),
            i <= SLOWEST,
            out@ == top@.take(i as int),
        decreases top@.len() - i,
    {
        out.push(top[i]);
        assert(out@ =~= top@.take(i + 1));
        i = i + 1;
    }
    assert(out@ =~= slowest_shown(*s));
    out
}

fn head_snapshot(h: &HeadState, now: Timestamp) -> (r: HeadSnapshot)
    ensures
        head_shown(*h, now, r),
{
    let tip = match &h.latest_block {
        Some(b) => Some(tip_snapshot(b, now)),
        None => None,
    };
    let (stats, peers, slowest) = match &h.stats {
        Some(s) => (Some(stats_snapshot(s)), Some(source_rows(s)), Some(slowest_blocks(s))),
        None => (None, None, None),
    };
    HeadSnapshot {
        name: h.name.clone(),
        reachable: h.reachable,
        ready: copy_text(&h.ready),
        version: copy_text(&h.version),
        tip,
        hard_tip: h.hard_tip,
        stats,
        req_hist: h.req_hist.tail(SNAPSHOT_HISTORY),
        peers,
        slowest,
    }
}

/// Whether how long each alert has been active can be told, as of a moment.
pub open spec fn ages_fit(app: App, now: i64) -> bool {
    forall|i: int|
        0 <= i < app.alerts@.len() ==> (raised_at(
            app.alert_log@,
            (#[trigger] app.alerts@[i]).key@,
        ) matches Some(at) ==> apart(now, at))
}

/// Describe the dashboard's state as of a moment.
pub fn build_at(app: &App, now: Timestamp) -> (r: Snapshot)
    requires
        ages_fit(*app, now@.0),
    ensures
        describes(*app, now, r),
{
    let generated_at = now.unix();
    let mut alerts: Vec<AlertSnapshot> = Vec::new();
    let mut i: usize = 0;
    while i < app.alerts.len()
        invariant
            i <= app.alerts@.len(),
            alerts@.len() == i,
            generated_at == now@.0,
            ages_fit(*app, now@.0),
            forall|k: int|
                0 <= k < i ==> alert_shown(
                    app.alerts@[k],
                    app.alert_log@,
                    now@.0,
                    #[trigger] alerts@[k],
                ),
        decreases app.alerts@.len() - i,
    {
        let a = &app.alerts[i];
        let active = active_for(&app.alert_log, a.key.as_str(), generated_at);
        alerts.push(
            AlertSnapshot { crit: a.crit, text: a.text.clone(), active_secs: active },
        );
        i = i + 1;
    }
    let len = app.alert_log.len();
    let mut alert_log: Vec<EventSnapshot> = Vec::new();
    let mut k: usize = 0;
    while k < len && k < SNAPSHOT_EVENTS
        invariant
            k <= len,
            k <= SNAPSHOT_EVENTS,
            len == app.alert_log@.len(),
            alert_log@.len() == k,
            forall|j: int|
                0 <= j < k ==> event_shown(
                    app.alert_log@[app.alert_log@.len() - 1 - j],
                    #[trigger] alert_log@[j],
                ),
        decreases len - k,
    {
        let e = &app.alert_log[len - 1 - k];
        alert_log.push(
            EventSnapshot {
                at: e.at_unix,
                text: e.text.clone(),
                crit: e.crit,
                cleared: e.cleared,
            },
        );
        k = k + 1;
    }
    let mut heads: Vec<HeadSnapshot> = Vec::new();
    let mut n: usize = 0;
    while n < app.heads.len()
        invariant
            n <= app.heads@.len(),
            heads@.len() == n,
            forall|j: int|
                0 <= j < n ==> head_shown(app.heads@[j], now, #[trigger] heads@[j]),
        decreases app.heads@.len() - n,
    {
        heads.push(head_snapshot(&app.heads[n], now));
        n = n + 1;
    }
    Snapshot { generated_at, alerts, alert_log, heads }
}

/// Describe the dashboard's state as of now.
pub fn build(app: &App) -> (r: Snapshot)
    requires
        forall|now: i64|
            CALENDAR_START <= now <= CALENDAR_END ==> #[trigger] ages_fit(*app, now),
    ensures
        exists|now: Timestamp|
            #[trigger] describes(*app, now, r) && on_the_calendar(now@.0, now@.1),
{
    let now = Timestamp::now();
    let snapshot = build_at(app, now);
    assert(describes(*app, now, snapshot));
    snapshot
}

/// The moment an alert was last raised is that of the newest event that raised it: no later event
/// raised the same alert.
pub proof fn law_active_since_the_newest_raise(log: Seq<AlertEvent>, key: Seq<char>, i: int)
    requires
        0 <= i < log.len(),
        !log[i].cleared,
        log[i].identity() == key,
        forall|j: int|
            i < j < log.len() ==> (#[trigger] log[j]).cleared || log[j].identity() != key,
    ensures
        raised_at(log, key) == Some(log[i].at_unix),
    decreases log.len(),
{
    if i < log.len() - 1 {
        assert(log[log.len() - 1].cleared || log[log.len() - 1].identity() != key);
        let front = log.drop_last();
        assert forall|j: int| i < j < front.len() implies (#[trigger] front[j]).cleared
            || front[j].identity() != key by {
            assert(front[j] == log[j]);
        }
        law_active_since_the_newest_raise(front, key, i);
    }
}

} // verus!
