//! What becomes of what a head answers.

use crate::top::alert_laws::{distinct_names, law_backpressure_is_shown_for_a_minute, shown, stands};
use crate::top::clock::{rfc3339_instant, Timestamp};
use crate::top::config::Config;
use crate::top::poll::{
    details_of, info_of, json_signed, json_strings, json_unsigned, moment_view, polled,
    BlockDetails, Sample,
};
use crate::top::state::{HeadState, LatestBlockInfo};
use vstd::prelude::*;

verus! {

/// A block's summary has each of its parts from the place in the document that the head gives it,
/// and where nothing fitting stands there a number of zero, a question mark for a text, minus one
/// for a version, and no moment.
pub proof fn law_block_parts_come_from_their_places(
    v: serde_json::Value,
    d: BlockDetails,
    info: LatestBlockInfo,
)
    requires
        details_of(v, d),
        info_of(d, info),
    ensures
        json_unsigned(v).dom().contains("/number"@) ==> info.number == json_unsigned(v)["/number"@],
        !json_unsigned(v).dom().contains("/number"@) ==> info.number == 0,
        json_strings(v).dom().contains("/blockType"@) ==> info.block_type@
            == json_strings(v)["/blockType"@],
        !json_strings(v).dom().contains("/blockType"@) ==> info.block_type@ == "?"@,
        json_strings(v).dom().contains("/status/type"@) ==> info.status@
            == json_strings(v)["/status/type"@],
        !json_strings(v).dom().contains("/status/type"@) ==> info.status@ == "?"@,
        json_signed(v).dom().contains("/header/versionMajor"@) ==> info.version_major
            == json_signed(v)["/header/versionMajor"@],
        !json_signed(v).dom().contains("/header/versionMajor"@) ==> info.version_major == -1,
        json_signed(v).dom().contains("/header/versionMinor"@) ==> info.version_minor
            == json_signed(v)["/header/versionMinor"@],
        !json_signed(v).dom().contains("/header/versionMinor"@) ==> info.version_minor == -1,
        json_strings(v).dom().contains("/header/fallbackTxStartTime"@) ==> moment_view(
            info.fallback_at,
        ) == rfc3339_instant(json_strings(v)["/header/fallbackTxStartTime"@]),
        !json_strings(v).dom().contains("/header/fallbackTxStartTime"@) ==> info.fallback_at is None,
        json_strings(v).dom().contains("/header/forcedMajorBlockWakeupTime"@) ==> moment_view(
            info.forced_major_at,
        ) == rfc3339_instant(json_strings(v)["/header/forcedMajorBlockWakeupTime"@]),
        !json_strings(v).dom().contains("/header/forcedMajorBlockWakeupTime"@) ==> info.forced_major_at
            is None,
{
}

/// A head whose statistics arrive is reachable; they replace what it last said, each history gains
/// its sample at the end and drops nothing while it holds fewer than 600, and the headroom seen most
/// is raised to the sample's where that is more.
pub proof fn law_sample_is_taken_in(
    before: HeadState,
    after: HeadState,
    sample: Option<Sample>,
    ready: Option<String>,
    version: Option<String>,
    monotonic: u64,
)
    requires
        polled(before, after, sample, ready, version, monotonic),
        sample is Some,
    ensures
        after.reachable == Some(true),
        after.stats == Some(sample->0.stats),
        after.stats_at == Some(monotonic),
        after.req_hist@.len() > 0 && after.req_hist@.last() == sample->0.requests,
        after.blk_hist_x10@.len() > 0 && after.blk_hist_x10@.last() == sample->0.blocks_x10,
        after.mempool_hist@.len() > 0,
        sample->0.stats.mempool_size >= 0 ==> after.mempool_hist@.last()
            == sample->0.stats.mempool_size,
        sample->0.stats.mempool_size < 0 ==> after.mempool_hist@.last() == 0,
        before.req_hist@.len() < 600 ==> after.req_hist@.drop_last() == before.req_hist@,
        before.blk_hist_x10@.len() < 600 ==> after.blk_hist_x10@.drop_last()
            == before.blk_hist_x10@,
        before.mempool_hist@.len() < 600 ==> after.mempool_hist@.drop_last()
            == before.mempool_hist@,
        before.req_hist@.len() == 600 ==> after.req_hist@.drop_last() == before.req_hist@.skip(1),
        before.blk_hist_x10@.len() == 600 ==> after.blk_hist_x10@.drop_last()
            == before.blk_hist_x10@.skip(1),
        before.mempool_hist@.len() == 600 ==> after.mempool_hist@.drop_last()
            == before.mempool_hist@.skip(1),
        after.max_headroom >= before.max_headroom,
        after.max_headroom >= sample->0.stats.sequencer_headroom,
        after.max_headroom == before.max_headroom || after.max_headroom
            == sample->0.stats.sequencer_headroom,
{
    let s = sample->0;
    assert(before.req_hist@.push(s.requests).drop_last() =~= before.req_hist@);
    assert(before.blk_hist_x10@.push(s.blocks_x10).drop_last() =~= before.blk_hist_x10@);
    let held = after.mempool_hist@.last();
    assert(before.mempool_hist@.push(held).drop_last() =~= before.mempool_hist@);
    if before.req_hist@.len() == 600 {
        assert(after.req_hist@.drop_last() =~= before.req_hist@.skip(1));
    }
    if before.blk_hist_x10@.len() == 600 {
        assert(after.blk_hist_x10@.drop_last() =~= before.blk_hist_x10@.skip(1));
    }
    if before.mempool_hist@.len() == 600 {
        assert(after.mempool_hist@.drop_last() =~= before.mempool_hist@.skip(1));
    }
    if before.mempool_hist@.len() < 600 {
        assert(after.mempool_hist@.drop_last() =~= before.mempool_hist@);
    }
}

/// Backpressure is noted at the moment of the second of two samples between which the rejections for
/// it grew, and at no other.
pub proof fn law_backpressure_is_noted_as_it_grows(
    before: HeadState,
    after: HeadState,
    sample: Option<Sample>,
    ready: Option<String>,
    version: Option<String>,
    monotonic: u64,
)
    requires
        polled(before, after, sample, ready, version, monotonic),
    ensures
        ({
            let grew = sample is Some && before.stats is Some
                && sample->0.stats.local_requests.rejected_backpressure
                > before.stats->0.local_requests.rejected_backpressure;
            &&& grew ==> after.backpressure_seen_at == Some(monotonic)
            &&& !grew ==> after.backpressure_seen_at == before.backpressure_seen_at
        }),
{
}

/// Rejections for backpressure that grew between two polls are shown for a minute from the second.
pub proof fn law_growing_rejections_are_shown(
    before: HeadState,
    sample: Option<Sample>,
    ready: Option<String>,
    version: Option<String>,
    seen: u64,
    heads: Seq<HeadState>,
    cfg: Config,
    now: Timestamp,
    monotonic: u64,
    i: int,
)
    requires
        0 <= i < heads.len(),
        distinct_names(heads),
        polled(before, heads[i], sample, ready, version, seen),
        sample is Some,
        before.stats is Some,
        sample->0.stats.local_requests.rejected_backpressure
            > before.stats->0.local_requests.rejected_backpressure,
    ensures
        stands(shown(heads, cfg, now, monotonic), heads[i].name@ + ":backpressure"@) <==> monotonic
            < seen + 60_000_000_000,
{
    law_backpressure_is_shown_for_a_minute(heads, cfg, now, monotonic, i);
}

/// A head that does not answer is down and keeps its statistics, its histories and its baseline.
pub proof fn law_silence_keeps_what_was_said(
    before: HeadState,
    after: HeadState,
    sample: Option<Sample>,
    ready: Option<String>,
    version: Option<String>,
    monotonic: u64,
)
    requires
        polled(before, after, sample, ready, version, monotonic),
        sample is None,
    ensures
        after.reachable == Some(false),
        after.stats == before.stats,
        after.stats_at == before.stats_at,
        after.req_hist@ == before.req_hist@,
        after.blk_hist_x10@ == before.blk_hist_x10@,
        after.mempool_hist@ == before.mempool_hist@,
        after.max_headroom == before.max_headroom,
        after.backpressure_seen_at == before.backpressure_seen_at,
{
}

/// What a head says of its readiness and its version replaces what it said before; where it says
/// nothing, its version stays, and its readiness stays exactly as long as its statistics arrive.
/// Its name and what is known of its blocks are not a poll's.
pub proof fn law_readiness_goes_with_silence(
    before: HeadState,
    after: HeadState,
    sample: Option<Sample>,
    ready: Option<String>,
    version: Option<String>,
    monotonic: u64,
)
    requires
        polled(before, after, sample, ready, version, monotonic),
    ensures
        ready is Some ==> after.ready == ready,
        ready is None && sample is Some ==> after.ready == before.ready,
        ready is None && sample is None ==> after.ready is None,
        version is Some ==> after.version == version,
        version is None ==> after.version == before.version,
        after.name@ == before.name@,
        after.latest_block == before.latest_block,
        after.hard_tip == before.hard_tip,
{
}

} // verus!
