//! Data collection: what to ask a head, and what its answers do to the state.
//!
//! Every source updates its own slice of the state, and degrades to "unavailable" on its own
//! without taking the others with it.

use crate::text::{decimal, push_decimal, same_text};
use crate::top::clock::{parse_iso, rfc3339_instant, Timestamp};
use crate::top::state::{newest, HeadState, HeadStats, LatestBlockInfo, HISTORY};
use vstd::prelude::*;

verus! {

/// A JSON document, read by path.
#[verifier::external_type_specification]
#[verifier::external_body]
pub struct ExValue(serde_json::Value);

/// The strings in a JSON document, by pointer.
pub uninterp spec fn json_strings(v: serde_json::Value) -> Map<Seq<char>, Seq<char>>;

/// The numbers in a JSON document that 64 bits without a sign hold, by pointer.
pub uninterp spec fn json_unsigned(v: serde_json::Value) -> Map<Seq<char>, u64>;

/// The numbers in a JSON document that 64 bits with a sign hold, by pointer.
pub uninterp spec fn json_signed(v: serde_json::Value) -> Map<Seq<char>, i64>;

/// Calls `serde_json::Value::pointer` and `as_str`: the string that stands at a pointer.
#[verifier::external_body]
fn str_at(v: &serde_json::Value, pointer: &str) -> (r: Option<String>)
    ensures
        match r {
            Some(text) => {
                &&& json_strings(*v).dom().contains(pointer@)
                &&& json_strings(*v)[pointer@] == text@
            },
            None => !json_strings(*v).dom().contains(pointer@),
        },
{
    Some(v.pointer(pointer)?.as_str()?.to_owned())
}

/// Calls `serde_json::Value::pointer` and `as_u64`: the unsigned number that stands at a pointer.
#[verifier::external_body]
fn u64_at(v: &serde_json::Value, pointer: &str) -> (r: Option<u64>)
    ensures
        match r {
            Some(n) => {
                &&& json_unsigned(*v).dom().contains(pointer@)
                &&& json_unsigned(*v)[pointer@] == n
            },
            None => !json_unsigned(*v).dom().contains(pointer@),
        },
{
    v.pointer(pointer)?.as_u64()
}

/// Calls `serde_json::Value::pointer` and `as_i64`: the signed number that stands at a pointer.
#[verifier::external_body]
fn i64_at(v: &serde_json::Value, pointer: &str) -> (r: Option<i64>)
    ensures
        match r {
            Some(n) => {
                &&& json_signed(*v).dom().contains(pointer@)
                &&& json_signed(*v)[pointer@] == n
            },
            None => !json_signed(*v).dom().contains(pointer@),
        },
{
    v.pointer(pointer)?.as_i64()
}

/// The string at a pointer of a document.
pub open spec fn text_at(v: serde_json::Value, pointer: Seq<char>) -> Option<Seq<char>> {
    if json_strings(v).dom().contains(pointer) {
        Some(json_strings(v)[pointer])
    } else {
        None
    }
}

/// What a block's details say, as plain values: each there or not.
pub struct BlockDetails {
    pub number: Option<u64>,
    pub block_type: Option<String>,
    pub status: Option<String>,
    pub version_major: Option<i64>,
    pub version_minor: Option<i64>,
    pub fallback_at: Option<String>,
    pub forced_major_at: Option<String>,
}

pub open spec fn text_view(text: Option<String>) -> Option<Seq<char>> {
    match text {
        Some(text) => Some(text@),
        None => None,
    }
}

/// Text, or a question mark where there is none.
pub open spec fn text_or_mark(text: Option<Seq<char>>) -> Seq<char> {
    match text {
        Some(text) => text,
        None => "?"@,
    }
}

/// A number, or minus one where there is none.
pub open spec fn number_or_minus_one(n: Option<i64>) -> int {
    match n {
        Some(n) => n as int,
        None => -1,
    }
}

pub open spec fn moment_view(moment: Option<Timestamp>) -> Option<(i64, u32)> {
    match moment {
        Some(t) => Some(t@),
        None => None,
    }
}

/// The moment that text names, where there is text and it names one.
pub open spec fn moment_in(text: Option<Seq<char>>) -> Option<(i64, u32)> {
    match text {
        Some(text) => rfc3339_instant(text),
        None => None,
    }
}

/// Whether details are what a document says of a block.
pub open spec fn details_of(v: serde_json::Value, d: BlockDetails) -> bool {
    &&& d.number == (if json_unsigned(v).dom().contains("/number"@) {
        Some(json_unsigned(v)["/number"@])
    } else {
        None
    })
    &&& text_view(d.block_type) == text_at(v, "/blockType"@)
    &&& text_view(d.status) == text_at(v, "/status/type"@)
    &&& d.version_major == (if json_signed(v).dom().contains("/header/versionMajor"@) {
        Some(json_signed(v)["/header/versionMajor"@])
    } else {
        None
    })
    &&& d.version_minor == (if json_signed(v).dom().contains("/header/versionMinor"@) {
        Some(json_signed(v)["/header/versionMinor"@])
    } else {
        None
    })
    &&& text_view(d.fallback_at) == text_at(v, "/header/fallbackTxStartTime"@)
    &&& text_view(d.forced_major_at) == text_at(v, "/header/forcedMajorBlockWakeupTime"@)
}

/// Whether a block's summary is what its details say, with a default for each that is missing.
pub open spec fn info_of(d: BlockDetails, info: LatestBlockInfo) -> bool {
    &&& info.number == (match d.number {
        Some(n) => n,
        None => 0,
    })
    &&& info.block_type@ == text_or_mark(text_view(d.block_type))
    &&& info.status@ == text_or_mark(text_view(d.status))
    &&& info.version_major == number_or_minus_one(d.version_major)
    &&& info.version_minor == number_or_minus_one(d.version_minor)
    &&& moment_view(info.fallback_at) == moment_in(text_view(d.fallback_at))
    &&& moment_view(info.forced_major_at) == moment_in(text_view(d.forced_major_at))
}

/// Read a block's details out of a document.
pub fn read_block(v: &serde_json::Value) -> (r: BlockDetails)
    ensures
        details_of(*v, r),
{
    BlockDetails {
        number: u64_at(v, "/number"),
        block_type: str_at(v, "/blockType"),
        status: str_at(v, "/status/type"),
        version_major: i64_at(v, "/header/versionMajor"),
        version_minor: i64_at(v, "/header/versionMinor"),
        fallback_at: str_at(v, "/header/fallbackTxStartTime"),
        forced_major_at: str_at(v, "/header/forcedMajorBlockWakeupTime"),
    }
}

fn or_mark(text: Option<String>) -> (r: String)
    ensures
        r@ == text_or_mark(text_view(text)),
{
    match text {
        Some(text) => text,
        None => "?".to_owned(),
    }
}

fn or_minus_one(n: Option<i64>) -> (r: i64)
    ensures
        r == number_or_minus_one(n),
{
    match n {
        Some(n) => n,
        None => -1,
    }
}

fn moment(text: Option<String>) -> (r: Option<Timestamp>)
    ensures
        moment_view(r) == moment_in(text_view(text)),
{
    match text {
        Some(text) => parse_iso(text.as_str()),
        None => None,
    }
}

/// Sum up a block's details.
pub fn block_info(d: BlockDetails) -> (r: LatestBlockInfo)
    ensures
        info_of(d, r),
{
    LatestBlockInfo {
        number: match d.number {
            Some(n) => n,
            None => 0,
        },
        block_type: or_mark(d.block_type),
        status: or_mark(d.status),
        version_major: or_minus_one(d.version_major),
        version_minor: or_minus_one(d.version_minor),
        fallback_at: moment(d.fallback_at),
        forced_major_at: moment(d.forced_major_at),
    }
}

/// Sum up a block from the document a head gives of it.
pub fn parse_block(v: &serde_json::Value) -> (r: LatestBlockInfo)
    ensures
        exists|d: BlockDetails| #[trigger] details_of(*v, d) && info_of(d, r),
{
    let d = read_block(v);
    assert(details_of(*v, d));
    block_info(d)
}

/// Whether a block's status is the final one.
pub fn is_final_status(status: Option<String>) -> (r: bool)
    ensures
        r == (text_view(status) == Some("HARD_CONFIRMED"@)),
{
    match status {
        Some(status) => same_text(status.as_str(), "HARD_CONFIRMED"),
        None => false,
    }
}

/// Whether a head's document says that a block is hard-confirmed.
pub fn is_hard_confirmed(v: &serde_json::Value) -> (r: bool)
    ensures
        r == (text_at(*v, "/status/type"@) == Some("HARD_CONFIRMED"@)),
{
    is_final_status(str_at(v, "/status/type"))
}

/// What a head's readiness document says.
pub fn ready_status(v: &serde_json::Value) -> (r: Option<String>)
    ensures
        text_view(r) == text_at(*v, "/status"@),
{
    str_at(v, "/status")
}

/// What a head's version document says.
pub fn build_version(v: &serde_json::Value) -> (r: Option<String>)
    ensures
        text_view(r) == text_at(*v, "/version"@),
{
    str_at(v, "/version")
}

fn address(base: &str, path: &str) -> (r: String)
    ensures
        r@ == base@ + path@,
{
    let mut url = base.to_owned();
    url.append(path);
    url
}

pub fn stats_url(base: &str) -> (r: String)
    ensures
        r@ == base@ + "/head/stats"@,
{
    address(base, "/head/stats")
}

pub fn ready_url(base: &str) -> (r: String)
    ensures
        r@ == base@ + "/ready"@,
{
    address(base, "/ready")
}

pub fn version_url(base: &str) -> (r: String)
    ensures
        r@ == base@ + "/version"@,
{
    address(base, "/version")
}

pub fn block_url(base: &str, n: u64) -> (r: String)
    ensures
        r@ == base@ + "/head/blocks/"@ + decimal(n as nat),
{
    let mut url = address(base, "/head/blocks/");
    push_decimal(&mut url, n);
    url
}

/// One sample of a head's statistics, with its two rates rounded to what the sparklines show.
pub struct Sample {
    pub stats: HeadStats,
    /// Requests per second, rounded.
    pub requests: u64,
    /// Blocks per second in tenths, rounded.
    pub blocks_x10: u64,
}

pub open spec fn not_negative(n: i64) -> u64 {
    if n < 0 {
        0
    } else {
        n as u64
    }
}

pub(crate) fn at_least_zero(n: i64) -> (r: u64)
    ensures
        r == not_negative(n),
{
    if n < 0 {
        0
    } else {
        n as u64
    }
}

pub open spec fn larger(a: i64, b: i64) -> i64 {
    if a < b {
        b
    } else {
        a
    }
}

/// Whether the rejections for backpressure grew from one sample to the next.
pub open spec fn rejections_grew(before: Option<HeadStats>, after: HeadStats) -> bool {
    before matches Some(b) && after.local_requests.rejected_backpressure
        > b.local_requests.rejected_backpressure
}

/// Whether a head's state is what one round of polling makes of it: statistics that arrived at a
/// moment or did not, what the head says of its readiness, and its version.
///
/// A head that does not answer is down, and its readiness with it, but what it last said stays.
pub open spec fn polled(
    before: HeadState,
    after: HeadState,
    sample: Option<Sample>,
    ready: Option<String>,
    version: Option<String>,
    monotonic: u64,
) -> bool {
    &&& after.name == before.name
    &&& after.latest_block == before.latest_block
    &&& after.hard_tip == before.hard_tip
    &&& after.reachable == Some(sample is Some)
    &&& after.ready == (if ready is Some {
        ready
    } else if sample is Some {
        before.ready
    } else {
        None
    })
    &&& after.version == (if version is Some {
        version
    } else {
        before.version
    })
    &&& match sample {
        Some(s) => {
            &&& after.stats == Some(s.stats)
            &&& after.stats_at == Some(monotonic)
            &&& after.req_hist@ == newest(before.req_hist@.push(s.requests), HISTORY as nat)
            &&& after.blk_hist_x10@ == newest(
                before.blk_hist_x10@.push(s.blocks_x10),
                HISTORY as nat,
            )
            &&& after.mempool_hist@ == newest(
                before.mempool_hist@.push(not_negative(s.stats.mempool_size)),
                HISTORY as nat,
            )
            &&& after.max_headroom == larger(before.max_headroom, s.stats.sequencer_headroom)
            &&& after.backpressure_seen_at == (if rejections_grew(before.stats, s.stats) {
                Some(monotonic)
            } else {
                before.backpressure_seen_at
            })
        },
        None => {
            &&& after.stats == before.stats
            &&& after.stats_at == before.stats_at
            &&& after.req_hist == before.req_hist
            &&& after.blk_hist_x10 == before.blk_hist_x10
            &&& after.mempool_hist == before.mempool_hist
            &&& after.max_headroom == before.max_headroom
            &&& after.backpressure_seen_at == before.backpressure_seen_at
        },
    }
}

/// Take in one round of polling.
pub fn apply_poll(
    h: &mut HeadState,
    sample: Option<Sample>,
    ready: Option<String>,
    version: Option<String>,
    monotonic: u64,
)
    ensures
        polled(*old(h), *final(h), sample, ready, version, monotonic),
{
    match sample {
        Some(s) => {
            h.reachable = Some(true);
            h.stats_at = Some(monotonic);
            h.req_hist.push(s.requests);
            h.blk_hist_x10.push(s.blocks_x10);
            h.mempool_hist.push(at_least_zero(s.stats.mempool_size));
            if h.max_headroom < s.stats.sequencer_headroom {
                h.max_headroom = s.stats.sequencer_headroom;
            }
            let grew = match &h.stats {
                Some(before) => s.stats.local_requests.rejected_backpressure
                    > before.local_requests.rejected_backpressure,
                None => false,
            };
            if grew {
                h.backpressure_seen_at = Some(monotonic);
            }
            h.stats = Some(s.stats);
        },
        None => {
            h.reachable = Some(false);
        },
    }
    if ready.is_some() {
        h.ready = ready;
    } else if let Some(false) = h.reachable {
        h.ready = None;
    }
    if version.is_some() {
        h.version = version;
    }
}

/// Whether the head is yet to say its version.
pub fn needs_version(h: &HeadState) -> (r: bool)
    ensures
        r == (h.version is None),
{
    h.version.is_none()
}

/// The headroom baseline never shrinks, and a head that stops answering keeps its statistics.
pub proof fn law_polling_only_raises_the_baseline(
    before: HeadState,
    after: HeadState,
    sample: Option<Sample>,
    ready: Option<String>,
    version: Option<String>,
    monotonic: u64,
)
    requires
        polled(before, after, sample, ready, version, monotonic),
    ensures
        after.max_headroom >= before.max_headroom,
        sample matches Some(s) ==> after.max_headroom >= s.stats.sequencer_headroom,
        sample is None ==> after.stats == before.stats && after.reachable == Some(false),
        before.version is Some ==> after.version is Some,
{
}

} // verus!
