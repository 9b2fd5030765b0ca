//! Exponential search for the end of a prefix of the chain.
//!
//! The blocks that exist form a prefix of the block numbers, and so do the hard-confirmed ones.
//! The search asks for one block at a time, galloping away from where it starts with a stride that
//! doubles, then closing in. [`law_search_finds_the_frontier`] says that what it finds is exact,
//! [`law_search_asks_for_few_blocks`] that it asks for a handful of blocks: the logarithm of the
//! distance from where it starts.

use vstd::arithmetic::logarithm::{
    lemma_log0, lemma_log_is_ordered, lemma_log_nonnegative, lemma_log_s, log,
};
use vstd::prelude::*;

verus! {

/// Where a search stands.
#[derive(Clone, Copy, PartialEq, Eq, Debug, Structural)]
pub enum Search {
    /// At the hint.
    Start { at: u64 },
    /// Striding down, ever further, until a block passes. The block at `hi` failed.
    Down { hi: u64, step: u64 },
    /// Striding up, ever further, until a block fails. The block at `lo` passed.
    Up { lo: u64, step: u64 },
    /// Closing in. The block at `lo` passed, the one at `hi` failed.
    Between { lo: u64, hi: u64 },
    /// The highest block that passes, if any does.
    Done { found: Option<u64> },
}

/// The block a stride down from another, and no lower than the first.
pub open spec fn below(hi: u64, step: u64) -> u64 {
    if hi > step {
        (hi - step) as u64
    } else {
        1
    }
}

/// The block a stride up from another, and no higher than the last.
pub open spec fn above(lo: u64, step: u64) -> u64 {
    if lo + step <= u64::MAX {
        (lo + step) as u64
    } else {
        u64::MAX
    }
}

/// The block to ask for.
pub open spec fn asked(s: Search) -> u64 {
    match s {
        Search::Start { at } => at,
        Search::Down { hi, step } => below(hi, step),
        Search::Up { lo, step } => above(lo, step),
        Search::Between { lo, hi } => (lo + (hi - lo) / 2) as u64,
        Search::Done { .. } => 0,
    }
}

/// Where a search stands once its end lies between two blocks.
pub open spec fn closing(lo: u64, hi: u64) -> Search {
    if hi - lo > 1 {
        Search::Between { lo, hi }
    } else {
        Search::Done { found: Some(lo) }
    }
}

/// Where a search stands that goes up from a block that passed.
pub open spec fn rising(lo: u64, step: u64) -> Search {
    if lo == u64::MAX {
        Search::Done { found: Some(lo) }
    } else {
        Search::Up { lo, step }
    }
}

/// Where a search stands that goes down from a block that failed.
pub open spec fn falling(hi: u64, step: u64) -> Search {
    if hi <= 1 {
        Search::Done { found: None }
    } else {
        Search::Down { hi, step }
    }
}

/// Where a search stands once the block it asked for has passed, or has not.
pub open spec fn answered(s: Search, passes: bool) -> Search {
    match s {
        Search::Start { at } => if passes {
            rising(at, 1)
        } else {
            falling(at, 1)
        },
        Search::Down { hi, step } => if passes {
            closing(asked(s), hi)
        } else {
            falling(asked(s), (step * 2) as u64)
        },
        Search::Up { lo, step } => if passes {
            rising(asked(s), (step * 2) as u64)
        } else {
            closing(lo, asked(s))
        },
        Search::Between { lo, hi } => if passes {
            closing(asked(s), hi)
        } else {
            closing(lo, asked(s))
        },
        Search::Done { .. } => s,
    }
}

/// Whether a search stands where one that began properly can stand.
pub open spec fn proper(s: Search) -> bool {
    match s {
        Search::Start { at } => at >= 1,
        Search::Down { hi, step } => hi >= 2 && step >= 1 && hi + step <= u64::MAX + 1,
        Search::Up { lo, step } => 1 <= step <= lo < u64::MAX,
        Search::Between { lo, hi } => lo >= 1 && lo + 1 < hi,
        Search::Done { found } => found matches Some(n) ==> n >= 1,
    }
}

/// Where a search begins that is given a hint.
pub open spec fn begun(hint: u64) -> Search {
    Search::Start {
        at: if hint < 1 {
            1
        } else {
            hint
        },
    }
}

impl Search {
    /// Begin at a hint.
    pub fn begin(hint: u64) -> (r: Search)
        ensures
            proper(r),
            r == begun(hint),
    {
        let at: u64 = if hint < 1 {
            1
        } else {
            hint
        };
        Search::Start { at }
    }

    /// The block to ask for, or `None` once the search is done.
    pub fn next_block(self) -> (r: Option<u64>)
        requires
            proper(self),
        ensures
            match r {
                Some(n) => self !is Done && n == asked(self),
                None => self is Done,
            },
    {
        match self {
            Search::Start { at } => Some(at),
            Search::Down { hi, step } => if hi > step {
                Some(hi - step)
            } else {
                Some(1)
            },
            Search::Up { lo, step } => if step <= u64::MAX - lo {
                Some(lo + step)
            } else {
                Some(u64::MAX)
            },
            Search::Between { lo, hi } => Some(lo + (hi - lo) / 2),
            Search::Done { .. } => None,
        }
    }

    /// Take in whether the block asked for passes.
    pub fn answer(self, passes: bool) -> (r: Search)
        requires
            proper(self),
        ensures
            r == answered(self, passes),
            proper(r),
    {
        let n = match self.next_block() {
            Some(n) => n,
            None => {
                return self;
            },
        };
        match self {
            Search::Start { .. } => if passes {
                rise(n, 1)
            } else {
                fall(n, 1)
            },
            Search::Down { hi, step } => if passes {
                close(n, hi)
            } else if n <= 1 {
                Search::Done { found: None }
            } else {
                fall(n, step * 2)
            },
            Search::Up { lo, step } => if !passes {
                close(lo, n)
            } else if n == u64::MAX {
                Search::Done { found: Some(n) }
            } else {
                rise(n, step * 2)
            },
            Search::Between { lo, hi } => if passes {
                close(n, hi)
            } else {
                close(lo, n)
            },
            Search::Done { found } => Search::Done { found },
        }
    }

    /// What was found, once the search is done.
    pub fn outcome(self) -> (r: Option<u64>)
        requires
            self is Done,
        ensures
            self == (Search::Done { found: r }),
    {
        match self {
            Search::Done { found } => found,
            _ => None,
        }
    }
}

fn rise(lo: u64, step: u64) -> (r: Search)
    requires
        1 <= step <= lo,
    ensures
        r == rising(lo, step),
        proper(r),
{
    if lo == u64::MAX {
        Search::Done { found: Some(lo) }
    } else {
        Search::Up { lo, step }
    }
}

fn fall(hi: u64, step: u64) -> (r: Search)
    requires
        1 <= step,
        1 <= hi,
        hi + step <= u64::MAX + 1,
    ensures
        r == falling(hi, step),
        proper(r),
{
    if hi <= 1 {
        Search::Done { found: None }
    } else {
        Search::Down { hi, step }
    }
}

fn close(lo: u64, hi: u64) -> (r: Search)
    requires
        1 <= lo < hi,
    ensures
        r == closing(lo, hi),
        proper(r),
{
    if hi - lo > 1 {
        Search::Between { lo, hi }
    } else {
        Search::Done { found: Some(lo) }
    }
}

/// Whether a search is on course: what it takes to have passed or failed did, where exactly the
/// blocks from 1 to `frontier` pass.
pub open spec fn on_course(s: Search, frontier: u64) -> bool {
    &&& proper(s)
    &&& match s {
        Search::Start { .. } => true,
        Search::Down { hi, .. } => frontier < hi,
        Search::Up { lo, .. } => lo <= frontier,
        Search::Between { lo, hi } => lo <= frontier < hi,
        Search::Done { found } => found == found_at(frontier),
    }
}

/// What a search is to find.
pub open spec fn found_at(frontier: u64) -> Option<u64> {
    if frontier == 0 {
        None
    } else {
        Some(frontier)
    }
}

/// Where a search ends that is answered truthfully.
pub open spec fn run_to_end(s: Search, frontier: u64) -> Search
    recommends
        on_course(s, frontier),
    decreases phase(s), distance(s, frontier),
    when on_course(s, frontier)
    via run_ends
{
    if s is Done {
        s
    } else {
        run_to_end(answered(s, asked(s) <= frontier), frontier)
    }
}

/// How many blocks a search asks for that is answered truthfully.
pub open spec fn fetches(s: Search, frontier: u64) -> nat
    recommends
        on_course(s, frontier),
    decreases phase(s), distance(s, frontier),
    when on_course(s, frontier)
    via fetches_end
{
    if s is Done {
        0
    } else {
        1 + fetches(answered(s, asked(s) <= frontier), frontier)
    }
}

/// A search starts, goes up or down, then closes in.
pub open spec fn phase(s: Search) -> nat {
    match s {
        Search::Start { .. } => 3,
        Search::Down { .. } | Search::Up { .. } => 2,
        Search::Between { .. } => 1,
        Search::Done { .. } => 0,
    }
}

/// How far a search has to go within its phase.
pub open spec fn distance(s: Search, frontier: u64) -> nat {
    match s {
        Search::Start { .. } => 0,
        Search::Down { hi, .. } => apart(hi, frontier),
        Search::Up { lo, .. } => apart(lo, frontier),
        Search::Between { lo, hi } => apart(lo, hi),
        Search::Done { .. } => 0,
    }
}

/// How far two block numbers lie apart.
pub open spec fn apart(a: u64, b: u64) -> nat {
    if a <= b {
        (b - a) as nat
    } else {
        (a - b) as nat
    }
}

#[via_fn]
proof fn run_ends(s: Search, frontier: u64) {
    if s !is Done {
        lemma_stays_on_course(s, frontier);
    }
}

#[via_fn]
proof fn fetches_end(s: Search, frontier: u64) {
    if s !is Done {
        lemma_stays_on_course(s, frontier);
    }
}

proof fn lemma_stays_on_course(s: Search, frontier: u64)
    requires
        on_course(s, frontier),
        s !is Done,
    ensures
        on_course(answered(s, asked(s) <= frontier), frontier),
        ({
            let t = answered(s, asked(s) <= frontier);
            phase(t) < phase(s) || phase(t) == phase(s) && distance(t, frontier) < distance(
                s,
                frontier,
            )
        }),
{
}

/// A search that is answered truthfully ends, at the last block that passes where any does.
pub proof fn law_search_ends_at_the_last_that_passes(hint: u64, frontier: u64)
    ensures
        run_to_end(begun(hint), frontier) matches Search::Done { found } && (frontier == 0 ==> found
            is None) && (frontier > 0 ==> found == Some(frontier)),
        begun(hint) matches Search::Start { at } && at >= 1 && (hint >= 1 ==> at == hint),
{
    law_search_finds_the_frontier(hint, frontier);
}

/// The search is exact: wherever it starts, it ends at the highest block that passes, or finds
/// that none does, as long as exactly the blocks from 1 to some frontier pass.
pub proof fn law_search_finds_the_frontier(hint: u64, frontier: u64)
    ensures
        run_to_end(begun(hint), frontier) == (Search::Done { found: found_at(frontier) }),
{
    lemma_run_finds(begun(hint), frontier);
}

proof fn lemma_run_finds(s: Search, frontier: u64)
    requires
        on_course(s, frontier),
    ensures
        run_to_end(s, frontier) == (Search::Done { found: found_at(frontier) }),
    decreases phase(s), distance(s, frontier),
{
    if s !is Done {
        lemma_stays_on_course(s, frontier);
        lemma_run_finds(answered(s, asked(s) <= frontier), frontier);
    }
}

/// How many blocks are asked for while closing in on a stretch of a width.
spec fn to_close(width: int) -> int {
    if width <= 1 {
        0
    } else {
        log(2, width - 1) + 1
    }
}

proof fn lemma_closing_halves(lo: u64, hi: u64, frontier: u64)
    requires
        1 <= lo <= frontier < hi,
    ensures
        fetches(closing(lo, hi), frontier) <= to_close(hi - lo),
    decreases hi - lo,
{
    let s = closing(lo, hi);
    let width = hi - lo;
    if width > 1 {
        let mid = asked(s);
        lemma_stays_on_course(s, frontier);
        lemma_log_nonnegative(2, width - 1);
        if mid <= frontier {
            lemma_closing_halves(mid, hi, frontier);
            assert(hi - mid - 1 == (width - 1) / 2);
        } else {
            lemma_closing_halves(lo, mid, frontier);
            assert(mid - lo - 1 <= (width - 1) / 2);
            if mid - lo > 1 {
                lemma_log_is_ordered(2, mid - lo - 1, (width - 1) / 2);
            }
        }
        if width > 2 {
            lemma_log_s(2, width - 1);
        } else {
            lemma_log0(2, width - 1);
        }
    }
}

/// How many blocks are asked for while striding and closing in, `span` being what is left to go
/// and the stride together. A stride that falls short leaves that sum as it was.
spec fn to_gallop(span: int, step: int) -> int {
    log(2, span / step) + log(2, span) + 2
}

proof fn lemma_last_stride(span: int, step: int, width: int)
    requires
        1 <= step <= span,
        width <= step,
    ensures
        1 + to_close(width) <= to_gallop(span, step),
{
    assert(span / step >= 0) by (nonlinear_arith)
        requires
            1 <= step <= span,
    ;
    lemma_log_nonnegative(2, span / step);
    lemma_log_nonnegative(2, span);
    if width > 1 {
        lemma_log_is_ordered(2, width - 1, span);
    }
}

proof fn lemma_longer_stride(span: int, step: int)
    requires
        1 <= step,
        2 * step <= span,
    ensures
        1 + to_gallop(span, 2 * step) <= to_gallop(span, step),
{
    let q = span / step;
    assert(q >= 2) by (nonlinear_arith)
        requires
            1 <= step,
            2 * step <= span,
            q == span / step,
    ;
    vstd::arithmetic::div_mod::lemma_div_denominator(span, step, 2);
    assert(step * 2 == 2 * step);
    lemma_log_s(2, q);
}

proof fn lemma_rising(lo: u64, step: u64, frontier: u64)
    requires
        1 <= step <= lo <= frontier,
    ensures
        fetches(rising(lo, step), frontier) <= to_gallop(frontier - lo + step, step as int),
    decreases frontier - lo,
{
    let s = rising(lo, step);
    let span = frontier - lo + step;
    lemma_last_stride(span, step as int, 0);
    if s is Up {
        let n = asked(s);
        lemma_stays_on_course(s, frontier);
        if n <= frontier {
            if n < u64::MAX {
                lemma_rising(n, (step * 2) as u64, frontier);
                lemma_longer_stride(span, step as int);
            }
        } else {
            lemma_closing_halves(lo, n, frontier);
            lemma_last_stride(span, step as int, n - lo);
        }
    }
}

proof fn lemma_falling(hi: u64, step: u64, frontier: u64)
    requires
        1 <= step,
        frontier < hi,
        hi + step <= u64::MAX + 1,
    ensures
        fetches(falling(hi, step), frontier) <= to_gallop(hi - frontier + step, step as int),
    decreases hi - frontier,
{
    let s = falling(hi, step);
    let span = hi - frontier + step;
    lemma_last_stride(span, step as int, 0);
    if s is Down {
        let n = asked(s);
        lemma_stays_on_course(s, frontier);
        if n <= frontier {
            lemma_closing_halves(n, hi, frontier);
            lemma_last_stride(span, step as int, hi - n);
        } else if n > 1 {
            lemma_falling(n, (step * 2) as u64, frontier);
            lemma_longer_stride(span, step as int);
        }
    }
}

/// A search asks for no more blocks than twice the logarithm of the distance from its hint to what
/// it finds, and a few: wherever it starts and wherever it ends.
pub proof fn law_search_asks_for_few_blocks(hint: u64, frontier: u64)
    ensures
        fetches(begun(hint), frontier) <= 2 * log(2, apart(hint, frontier) as int + 2) + 3,
{
    let s = begun(hint);
    let at = asked(s);
    let d = apart(at, frontier) as int;
    lemma_stays_on_course(s, frontier);
    if at <= frontier {
        lemma_rising(at, 1, frontier);
    } else {
        lemma_falling(at, 1, frontier);
    }
    assert((d + 1) / 1 == d + 1);
    lemma_log_is_ordered(2, d + 1, apart(hint, frontier) as int + 2);
}

/// Following a head's newest block and its hard-confirmation frontier, round by round.
#[derive(Clone, Copy, PartialEq, Eq, Debug, Structural)]
pub struct BlockWatch {
    pub last_tip: Option<u64>,
    pub last_hard: Option<u64>,
    pub round: u64,
}

/// How often the hard-confirmation frontier is searched for: it moves only on stacks (minutes), so
/// every fifth round.
pub const HARD_EVERY: u64 = 5;

impl BlockWatch {
    pub fn new() -> (r: BlockWatch)
        ensures
            r == (BlockWatch { last_tip: None, last_hard: None, round: 0 }),
    {
        BlockWatch { last_tip: None, last_hard: None, round: 0 }
    }

    /// Where to start searching for the newest block: at the last one found.
    pub fn tip_hint(self) -> (r: u64)
        ensures
            r == (match self.last_tip {
                Some(n) => n,
                None => 1,
            }),
            self.last_tip == Some(r) || self.last_tip is None && r == 1,
    {
        match self.last_tip {
            Some(n) => n,
            None => 1,
        }
    }

    /// Where to start searching for the frontier: at the last one found.
    pub fn hard_hint(self) -> (r: u64)
        ensures
            r == (match self.last_hard {
                Some(n) => n,
                None => 1,
            }),
            self.last_hard == Some(r) || self.last_hard is None && r == 1,
    {
        match self.last_hard {
            Some(n) => n,
            None => 1,
        }
    }

    /// Take in the newest block. A round that found none ends there, uncounted: `false`.
    pub fn tip_found(&mut self, tip: Option<u64>) -> (r: bool)
        ensures
            r == (tip is Some),
            *final(self) == (BlockWatch {
                last_tip: if tip is Some {
                    tip
                } else {
                    old(self).last_tip
                },
                ..*old(self)
            }),
    {
        if tip.is_some() {
            self.last_tip = tip;
            true
        } else {
            false
        }
    }

    /// Whether this round searches for the frontier.
    pub fn hard_due(self) -> (r: bool)
        ensures
            r == (self.round % HARD_EVERY == 0),
            r <==> self.round == 5 * (self.round as int / 5),
    {
        self.round % HARD_EVERY == 0
    }

    /// Take in the frontier, found or not.
    pub fn hard_found(&mut self, hard: Option<u64>)
        ensures
            *final(self) == (BlockWatch { last_hard: hard, ..*old(self) }),
    {
        self.last_hard = hard;
    }

    /// End a round that found a newest block.
    pub fn end_round(&mut self)
        requires
            old(self).round < u64::MAX,
        ensures
            *final(self) == (BlockWatch { round: (old(self).round + 1) as u64, ..*old(self) }),
    {
        self.round = self.round + 1;
    }
}

} // verus!
