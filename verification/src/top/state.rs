//! The state every poller writes its own slice of, and the draw reads.

use crate::top::clock::Timestamp;
use std::collections::VecDeque;
use vstd::prelude::*;
use vstd::std_specs::vecdeque::*;

verus! {

/// Samples kept per sparkline. Wider than any terminal, so the graph scrolls rather than rescaling
/// as the window changes.
pub const HISTORY: usize = 600;

/// How many transitions the alert log keeps.
pub const ALERT_LOG_CAP: usize = 200;

/// Which screen is showing. The last-viewed screen persists across runs.
#[derive(Clone, Copy, PartialEq, Eq, Debug, Default, Structural)]
pub enum Screen {
    #[default]
    Consensus,
    Alerts,
}

impl Screen {
    pub const ALL: [Screen; 2] = [Screen::Consensus, Screen::Alerts];

    /// The key that selects the screen.
    pub open spec fn letter(self) -> char {
        match self {
            Screen::Consensus => 'c',
            Screen::Alerts => 'a',
        }
    }

    /// The screen's name.
    pub open spec fn heading(self) -> Seq<char> {
        match self {
            Screen::Consensus => "consensus"@,
            Screen::Alerts => "alerts"@,
        }
    }

    /// The screen that a key selects.
    pub open spec fn lettered(c: char) -> Option<Screen> {
        if c == 'c' {
            Some(Screen::Consensus)
        } else if c == 'a' {
            Some(Screen::Alerts)
        } else {
            None
        }
    }

    /// The screen to either side.
    pub open spec fn other(self) -> Screen {
        match self {
            Screen::Consensus => Screen::Alerts,
            Screen::Alerts => Screen::Consensus,
        }
    }

    pub fn key(self) -> (r: char)
        ensures
            r == self.letter(),
    {
        match self {
            Screen::Consensus => 'c',
            Screen::Alerts => 'a',
        }
    }

    pub fn title(self) -> (r: &'static str)
        ensures
            r@ == self.heading(),
    {
        match self {
            Screen::Consensus => "consensus",
            Screen::Alerts => "alerts",
        }
    }

    pub fn from_key(c: char) -> (r: Option<Screen>)
        ensures
            r == Screen::lettered(c),
    {
        let mut i: usize = 0;
        while i < Screen::ALL.len()
            invariant
                i <= 2,
                Screen::ALL@ == seq![Screen::Consensus, Screen::Alerts],
                forall|k: int| 0 <= k < i ==> (#[trigger] Screen::ALL@[k]).letter() != c,
            decreases 2 - i,
        {
            let screen = Screen::ALL[i];
            if screen.key() == c {
                return Some(screen);
            }
            i = i + 1;
        }
        assert(Screen::ALL@[0].letter() != c && Screen::ALL@[1].letter() != c);
        None
    }

    /// Where the screen stands in the order shown.
    fn place(self) -> (r: usize)
        ensures
            r < 2,
            Screen::ALL@[r as int] == self,
            r == (if self == Screen::Consensus {
                0int
            } else {
                1int
            }),
    {
        match self {
            Screen::Consensus => 0,
            Screen::Alerts => 1,
        }
    }

    pub fn next(self) -> (r: Screen)
        ensures
            r == self.other(),
    {
        Screen::ALL[(self.place() + 1) % Screen::ALL.len()]
    }

    pub fn prev(self) -> (r: Screen)
        ensures
            r == self.other(),
    {
        Screen::ALL[(self.place() + Screen::ALL.len() - 1) % Screen::ALL.len()]
    }
}

/// One raised or cleared transition in the alert log. Timestamps are Unix seconds.
///
/// `key` is the alert's stable identity; entries written by older builds have an empty key and
/// match by text instead.
#[derive(Debug)]
pub struct AlertEvent {
    pub at_unix: i64,
    pub key: String,
    pub text: String,
    pub crit: bool,
    pub cleared: bool,
}

impl Clone for AlertEvent {
    fn clone(&self) -> (r: AlertEvent)
        ensures
            r == *self,
    {
        AlertEvent {
            at_unix: self.at_unix,
            key: self.key.clone(),
            text: self.text.clone(),
            crit: self.crit,
            cleared: self.cleared,
        }
    }
}

impl AlertEvent {
    /// The identity used for pairing: the key when present, the text for entries from before keys
    /// existed.
    pub open spec fn identity(self) -> Seq<char> {
        if self.key@.len() == 0 {
            self.text@
        } else {
            self.key@
        }
    }

    pub fn ident(&self) -> (r: &str)
        ensures
            r@ == self.identity(),
    {
        if self.key.as_str().unicode_len() == 0 {
            self.text.as_str()
        } else {
            self.key.as_str()
        }
    }
}

/// The newest samples that fit in a history.
pub open spec fn newest<T>(samples: Seq<T>, cap: nat) -> Seq<T> {
    if samples.len() <= cap {
        samples
    } else {
        samples.skip(samples.len() - cap)
    }
}

/// A fixed-length sample history, oldest first.
pub struct Ring {
    buf: VecDeque<u64>,
}

impl View for Ring {
    type V = Seq<u64>;

    closed spec fn view(&self) -> Seq<u64> {
        self.buf@
    }
}

impl Ring {
    #[verifier::type_invariant]
    spec fn bounded(self) -> bool {
        self.buf@.len() <= HISTORY
    }

    pub fn new() -> (r: Ring)
        ensures
            r@ == Seq::<u64>::empty(),
    {
        Ring { buf: VecDeque::new() }
    }

    pub fn push(&mut self, v: u64)
        ensures
            final(self)@ == newest(old(self)@.push(v), HISTORY as nat),
            final(self)@.len() <= HISTORY,
    {
        proof {
            use_type_invariant(&*self);
        }
        let ghost before = self.buf@;
        let mut buf: VecDeque<u64> = VecDeque::new();
        std::mem::swap(&mut buf, &mut self.buf);
        if buf.len() == HISTORY {
            let _ = buf.pop_front();
        }
        buf.push_back(v);
        proof {
            if before.len() == HISTORY {
                assert(buf@ =~= before.push(v).skip(1));
            } else {
                assert(buf@ =~= before.push(v));
            }
        }
        self.buf = buf;
    }

    /// The most recent `width` samples, oldest first.
    pub fn tail(&self, width: usize) -> (r: Vec<u64>)
        ensures
            r@ == newest(self@, width as nat),
    {
        let len = self.buf.len();
        let skip: usize = if len > width {
            len - width
        } else {
            0
        };
        let mut out: Vec<u64> = Vec::new();
        let mut i: usize = skip;
        while i < len
            invariant
                skip <= i <= len,
                len == self.buf@.len(),
                out@ == self.buf@.subrange(skip as int, i as int),
            decreases len - i,
        {
            out.push(self.buf[i]);
            assert(out@ =~= self.buf@.subrange(skip as int, i + 1));
            i = i + 1;
        }
        assert(out@ =~= newest(self@, width as nat));
        out
    }
}

impl Default for Ring {
    fn default() -> (r: Ring)
        ensures
            r@ == Seq::<u64>::empty(),
    {
        Ring::new()
    }
}

/// A floating-point reading that a head reports, as its bits. The dashboard carries and shows it,
/// and calculates with none.
#[derive(Clone, Copy, PartialEq, Eq, Debug, Default, Structural)]
pub struct Reading {
    pub bits: u64,
}

impl Reading {
    /// Whether the reading is a number above zero: its sign bit is clear, it is not zero, and it
    /// lies no higher than infinity.
    pub open spec fn positive(self) -> bool {
        0 < self.bits <= 0x7ff0_0000_0000_0000
    }

    pub fn is_positive(self) -> (r: bool)
        ensures
            r == self.positive(),
    {
        0 < self.bits && self.bits <= 0x7ff0_0000_0000_0000
    }
}

#[derive(Clone, Copy, PartialEq, Eq, Debug, Default, Structural)]
pub struct RateStats {
    pub now: Reading,
    pub load1m: Reading,
    pub load5m: Reading,
    pub load15m: Reading,
}

#[derive(Clone, Copy, PartialEq, Eq, Debug, Default, Structural)]
pub struct LocalRequestStats {
    pub total: u64,
    pub rate: RateStats,
    pub rejected_screening: u64,
    pub rejected_backpressure: u64,
}

#[derive(Clone, Copy, PartialEq, Eq, Debug, Default, Structural)]
pub struct PeerRequestStats {
    pub peer: i64,
    pub total: u64,
    pub rate: RateStats,
}

#[derive(Clone, Copy, PartialEq, Eq, Debug, Default, Structural)]
pub struct BlockStats {
    pub minor: u64,
    pub major: u64,
    pub avg_events: Reading,
    pub max_events: u64,
    pub block_rate: RateStats,
    pub request_rate: RateStats,
}

#[derive(Clone, Copy, PartialEq, Eq, Debug, Default, Structural)]
pub struct StackStats {
    pub total: u64,
    pub last_stack_number: i64,
    pub seconds_since_last_hard_confirm: i64,
    pub mean_inter_stack_gap_seconds: Reading,
    pub avg_blocks_absorbed: Reading,
    pub max_blocks_absorbed: u64,
}

#[derive(Clone, Copy, PartialEq, Eq, Debug, Default, Structural)]
pub struct BlockTiming {
    pub block_number: u64,
    pub millis: u64,
    pub requests: u64,
}

#[derive(Clone, PartialEq, Eq, Debug, Default)]
pub struct TimingStats {
    pub count: u64,
    pub avg_millis: Reading,
    pub avg_millis_per_request: Reading,
    pub top: Vec<BlockTiming>,
}

#[derive(Clone, PartialEq, Eq, Debug, Default)]
pub struct BlockTimings {
    pub lead: TimingStats,
    pub replay: TimingStats,
    pub soft_consensus: TimingStats,
}

/// What a head says of itself.
#[derive(Clone, PartialEq, Eq, Debug, Default)]
pub struct HeadStats {
    pub uptime_seconds: u64,
    pub local_requests: LocalRequestStats,
    pub peer_requests: Vec<PeerRequestStats>,
    pub blocks: BlockStats,
    pub stacks: StackStats,
    pub block_timings: BlockTimings,
    pub mempool_size: i64,
    pub leader_mempool_drain: i64,
    pub sequencer_headroom: i64,
}

/// What a head says about the newest block.
#[derive(Clone, Debug)]
pub struct LatestBlockInfo {
    pub number: u64,
    pub block_type: String,
    pub status: String,
    pub version_major: i64,
    pub version_minor: i64,
    pub fallback_at: Option<Timestamp>,
    pub forced_major_at: Option<Timestamp>,
}

/// One head, as far as its pollers have seen it. Moments that only measure how long ago something
/// was are nanoseconds on a clock that never runs backwards.
pub struct HeadState {
    pub name: String,
    /// None until the first poll completes; a fresh start is unknown, not down.
    pub reachable: Option<bool>,
    /// What the head says of its readiness: initializing, active, finalized or
    /// handed-off-to-rule-based.
    pub ready: Option<String>,
    pub version: Option<String>,
    pub stats: Option<HeadStats>,
    pub stats_at: Option<u64>,
    pub latest_block: Option<LatestBlockInfo>,
    /// Newest hard-confirmed block at this peer (hard confirmations form a prefix of the chain, so
    /// this is the exact hard-confirmation frontier).
    pub hard_tip: Option<u64>,
    pub req_hist: Ring,
    /// Blocks per second in tenths, so sub-1 rates still register on the sparkline.
    pub blk_hist_x10: Ring,
    pub mempool_hist: Ring,
    /// Highest sequencer headroom ever seen: a proxy for window capacity.
    pub max_headroom: i64,
    /// Set when the rejections for backpressure grew between two consecutive samples.
    pub backpressure_seen_at: Option<u64>,
}

impl HeadState {
    /// Whether nothing has been heard of the head yet.
    pub open spec fn blank(self) -> bool {
        &&& self.reachable is None
        &&& self.ready is None
        &&& self.version is None
        &&& self.stats is None
        &&& self.stats_at is None
        &&& self.latest_block is None
        &&& self.hard_tip is None
        &&& self.req_hist@.len() == 0
        &&& self.blk_hist_x10@.len() == 0
        &&& self.mempool_hist@.len() == 0
        &&& self.max_headroom == 0
        &&& self.backpressure_seen_at is None
    }

    pub fn new(name: String) -> (r: HeadState)
        ensures
            r.name@ == name@,
            r.blank(),
    {
        HeadState {
            name,
            reachable: None,
            ready: None,
            version: None,
            stats: None,
            stats_at: None,
            latest_block: None,
            hard_tip: None,
            req_hist: Ring::new(),
            blk_hist_x10: Ring::new(),
            mempool_hist: Ring::new(),
            max_headroom: 0,
            backpressure_seen_at: None,
        }
    }
}

/// Something an operator should act on.
#[derive(Debug)]
pub struct Alert {
    /// The alert's stable identity, apart from the text, which may carry live counters.
    pub key: String,
    pub crit: bool,
    pub text: String,
}

/// What an alert says.
pub struct AlertView {
    pub key: Seq<char>,
    pub crit: bool,
    pub text: Seq<char>,
}

impl View for Alert {
    type V = AlertView;

    open spec fn view(&self) -> AlertView {
        AlertView { key: self.key@, crit: self.crit, text: self.text@ }
    }
}

/// What alerts say.
pub open spec fn alerts_view(alerts: Seq<Alert>) -> Seq<AlertView> {
    Seq::new(alerts.len(), |i: int| alerts[i]@)
}

/// Everything the dashboard knows.
pub struct App {
    pub heads: Vec<HeadState>,
    pub selected: usize,
    pub screen: Screen,
    /// Current alerts, recomputed once per tick, read by draw.
    pub alerts: Vec<Alert>,
    /// Raised and cleared transitions, newest last, capped at [`ALERT_LOG_CAP`].
    pub alert_log: VecDeque<AlertEvent>,
}

impl App {
    pub fn new(heads: Vec<String>) -> (r: App)
        ensures
            r.heads@.len() == heads@.len(),
            forall|i: int|
                0 <= i < heads@.len() ==> (#[trigger] r.heads@[i]).name@ == heads@[i]@
                    && r.heads@[i].blank(),
            r.selected == 0,
            r.screen == Screen::Consensus,
            r.alerts@.len() == 0,
            r.alert_log@.len() == 0,
    {
        let mut states: Vec<HeadState> = Vec::new();
        let mut i: usize = 0;
        while i < heads.len()
            invariant
                i <= heads@.len(),
                states@.len() == i,
                forall|k: int|
                    0 <= k < i ==> (#[trigger] states@[k]).name@ == heads@[k]@
                        && states@[k].blank(),
            decreases heads@.len() - i,
        {
            states.push(HeadState::new(heads[i].clone()));
            i = i + 1;
        }
        App {
            heads: states,
            selected: 0,
            screen: Screen::Consensus,
            alerts: Vec::new(),
            alert_log: VecDeque::new(),
        }
    }
}

/// A screen's key selects it.
pub proof fn law_key_selects_its_screen(screen: Screen)
    ensures
        Screen::lettered(screen.letter()) == Some(screen),
{
}

/// Stepping to one side and back shows the same screen, and as many steps as there are screens go
/// all the way round.
pub proof fn law_screens_go_round(screen: Screen)
    ensures
        screen.other() != screen,
        screen.other().other() == screen,
{
}

/// What a history holds once samples have been pushed one after the other.
pub open spec fn pushed(samples: Seq<u64>) -> Seq<u64>
    decreases samples.len(),
{
    if samples.len() == 0 {
        Seq::empty()
    } else {
        newest(pushed(samples.drop_last()).push(samples.last()), HISTORY as nat)
    }
}

/// A history holds the newest samples pushed, in order, and never more than fit.
pub proof fn law_history_keeps_the_newest(samples: Seq<u64>)
    ensures
        pushed(samples) == newest(samples, HISTORY as nat),
        pushed(samples).len() <= HISTORY,
    decreases samples.len(),
{
    if samples.len() > 0 {
        law_history_keeps_the_newest(samples.drop_last());
        assert(pushed(samples) =~= newest(samples, HISTORY as nat));
    } else {
        assert(samples =~= Seq::empty());
    }
}

} // verus!
