//! One archival pass: copy what is new, journal by journal.

use crate::archiver::archive::{archived_rows, archived_tip, ArchiveStore};
use crate::archiver::counts::{sum_of, FamilyCounts};
use crate::archiver::course::{
    law_a_led_pass_is_the_pass, law_a_pass_begins_on_course, law_every_step_leads_on, left,
    lemma_tip_is_taken, on_course, told, World,
};
use crate::archiver::steps::{to_do, Answer, AnswerView, Ask, Pass, StageView};
use crate::bytes::{be_value, copy_bytes};
use crate::store::cf::Cf;
use crate::store::error::StoreError;
use crate::store::head_store::{all_nameable, floor_of, journals_of, stored_rows, HeadStore};
use crate::store::journal::{encode_key, encoded_key, entry_fault, Entry};
use crate::store::table::{ordered, rows_from, rows_view, with_rows, Row};
use crate::text::{decimal, push_decimal};
use vstd::prelude::*;

verus! {

/// How many entries to accumulate before committing. Each commit is synced, so this trades archive
/// durability granularity against syscalls; a crash costs at most one batch of re-copying.
pub const BATCH: usize = 1024;

/// A journal whose oldest surviving entry sits above where this archive left off.
///
/// The node deleted data the archive never took a copy of. Whatever was in that range is gone from
/// both sides, and no later pass can recover it, so this is reported, never silently skipped.
#[derive(Clone, Copy, PartialEq, Eq, Debug, Structural)]
pub struct Gap {
    pub cf: Cf,
    /// The next index this archive expected to copy.
    pub expected_from: u64,
    /// The oldest index the node still holds.
    pub node_floor: u64,
}

impl Gap {
    /// The gap as an operator reads it.
    pub open spec fn shown(self) -> Seq<char> {
        self.cf.name_chars() + ": entries "@ + decimal(self.expected_from as nat) + ".."@ + decimal(
            (self.node_floor - 1) as nat,
        ) + " were deleted before this archive copied them"@
    }

    pub fn display(&self) -> (r: String)
        requires
            self.node_floor > 0,
        ensures
            r@ == self.shown(),
    {
        let mut out = self.cf.name();
        out.append(": entries ");
        push_decimal(&mut out, self.expected_from);
        out.append("..");
        push_decimal(&mut out, self.node_floor - 1);
        out.append(" were deleted before this archive copied them");
        out
    }
}

/// What a pass report says.
pub struct ReportView {
    pub watermarks: Map<Cf, u64>,
    pub copied: Map<Cf, u64>,
    pub gaps: Seq<Gap>,
}

/// The report of a pass that has done nothing yet.
pub open spec fn blank_report() -> ReportView {
    ReportView { watermarks: Map::empty(), copied: Map::empty(), gaps: Seq::empty() }
}

/// What one pass did.
pub struct PassReport {
    /// Highest index now durably archived, per journal. This is what gets reported to the node.
    pub watermarks: FamilyCounts,
    /// Entries copied this pass, per family.
    pub copied: FamilyCounts,
    /// Journals where the node had already deleted entries this archive never saw.
    pub gaps: Vec<Gap>,
}

impl View for PassReport {
    type V = ReportView;

    open spec fn view(&self) -> ReportView {
        ReportView { watermarks: self.watermarks@, copied: self.copied@, gaps: self.gaps@ }
    }
}

impl PassReport {
    pub fn new() -> (r: PassReport)
        ensures
            r@ == blank_report(),
            r.watermarks.listed() == Seq::<(Cf, u64)>::empty(),
            r.copied.listed() == Seq::<(Cf, u64)>::empty(),
    {
        PassReport {
            watermarks: FamilyCounts::new(),
            copied: FamilyCounts::new(),
            gaps: Vec::new(),
        }
    }

    pub fn total_copied(&self) -> (r: u64)
        requires
            sum_of(self.copied.listed()) <= u64::MAX,
        ensures
            r == sum_of(self.copied.listed()),
    {
        self.copied.sum()
    }
}

/// Where a journal's copy resumes: behind what the archive holds, or at what the node still holds
/// where the archive holds nothing.
pub open spec fn resume_from(archived_tip: Option<u64>, node_floor: Option<u64>) -> int {
    match (archived_tip, node_floor) {
        (Some(tip), _) => tip + 1,
        (None, Some(floor)) => floor as int,
        (None, None) => 0,
    }
}

/// The gap that a pass reports: the archive holds something, and the node's floor lies past the
/// next index the archive expected.
pub open spec fn gap_in(cf: Cf, archived_tip: Option<u64>, node_floor: Option<u64>) -> Option<Gap> {
    match (archived_tip, node_floor) {
        (Some(tip), Some(floor)) => if floor > tip + 1 {
            Some(Gap { cf, expected_from: (tip + 1) as u64, node_floor: floor })
        } else {
            None
        },
        _ => None,
    }
}

/// The copy of one journal under way.
///
/// The caller feeds it the entries from [`JournalCopy::from`] on, and commits each batch before
/// it feeds more.
pub struct JournalCopy {
    cf: Cf,
    from: u64,
    gap: Option<Gap>,
    batch: Vec<Row>,
    highest: Option<u64>,
    copied: u64,
}

impl JournalCopy {
    pub closed spec fn journal(&self) -> Cf {
        self.cf
    }

    /// The first index to copy.
    pub closed spec fn first(&self) -> u64 {
        self.from
    }

    pub closed spec fn found_gap(&self) -> Option<Gap> {
        self.gap
    }

    /// The rows still to commit.
    pub closed spec fn pending(&self) -> Seq<(Seq<u8>, Seq<u8>)> {
        rows_view(self.batch@)
    }

    /// The highest index archived, once what is pending has been committed.
    pub closed spec fn reached(&self) -> Option<u64> {
        self.highest
    }

    /// How many entries have been fed.
    pub closed spec fn fed(&self) -> u64 {
        self.copied
    }

    /// Begin a copy, given what the archive already holds and what the node still holds.
    ///
    /// A fresh archive starts at the node's own floor rather than 0: a store that has already been
    /// trimmed has no entries below it, and asking for them would look like a gap on every pass
    /// forever. A gap only counts once the archive has something to be behind: an empty archive
    /// starting above 0 is late, not holed.
    pub fn start(cf: Cf, archived_tip: Option<u64>, node_floor: Option<u64>) -> (r: JournalCopy)
        requires
            archived_tip != Some(u64::MAX),
        ensures
            r.journal() == cf,
            r.first() == resume_from(archived_tip, node_floor),
            r.found_gap() == gap_in(cf, archived_tip, node_floor),
            r.pending() == Seq::<(Seq<u8>, Seq<u8>)>::empty(),
            r.reached() == archived_tip,
            r.fed() == 0,
    {
        let from = match (archived_tip, node_floor) {
            (Some(tip), _) => tip + 1,
            (None, Some(floor)) => floor,
            (None, None) => 0,
        };
        let gap = match (archived_tip, node_floor) {
            (Some(_), Some(floor)) => if floor > from {
                Some(Gap { cf, expected_from: from, node_floor: floor })
            } else {
                None
            },
            _ => None,
        };
        let r = JournalCopy {
            cf,
            from,
            gap,
            batch: Vec::new(),
            highest: archived_tip,
            copied: 0,
        };
        assert(r.pending() =~= Seq::<(Seq<u8>, Seq<u8>)>::empty());
        r
    }

    /// The first index to copy.
    pub fn from(&self) -> (r: u64)
        ensures
            r == self.first(),
    {
        self.from
    }

    pub fn gap(&self) -> (r: Option<Gap>)
        ensures
            r == self.found_gap(),
    {
        self.gap
    }

    /// How many entries have been fed.
    pub(crate) fn count(&self) -> (r: u64)
        ensures
            r == self.fed(),
    {
        self.copied
    }

    /// Feed one entry. `true` when enough is pending that the batch is to be committed.
    ///
    /// The entry goes in framed, exactly as the node stored it: the arrival stamp is what orders
    /// entries across journals at replay, so an archive that drops it cannot be restored from.
    pub fn feed(&mut self, entry: &Entry) -> (r: Result<bool, StoreError>)
        requires
            old(self).fed() < u64::MAX,
        ensures
            final(self).journal() == old(self).journal(),
            final(self).first() == old(self).first(),
            final(self).found_gap() == old(self).found_gap(),
            match r {
                Ok(full) => {
                    &&& encoded_key(old(self).journal(), entry.index) matches Ok(key)
                    &&& final(self).pending() == old(self).pending().push((key, entry.stored()))
                    &&& final(self).reached() == Some(entry.index)
                    &&& final(self).fed() == old(self).fed() + 1
                    &&& full == (final(self).pending().len() >= BATCH)
                },
                Err(e) => {
                    &&& encoded_key(old(self).journal(), entry.index) == Err::<
                        Seq<u8>,
                        StoreError,
                    >(e)
                    &&& final(self).pending() == old(self).pending()
                    &&& final(self).reached() == old(self).reached()
                    &&& final(self).fed() == old(self).fed()
                },
            },
    {
        match encode_key(self.cf, entry.index) {
            Ok(key) => {
                let ghost before = self.pending();
                self.batch.push(Row { key, value: entry.framed() });
                assert(self.pending() =~= before.push((key@, entry.stored())));
                self.highest = Some(entry.index);
                self.copied = self.copied + 1;
                Ok(self.batch.len() >= BATCH)
            },
            Err(e) => Err(e),
        }
    }

    /// Hand out the rows to commit.
    pub fn take_batch(&mut self) -> (r: Vec<Row>)
        ensures
            rows_view(r@) == old(self).pending(),
            final(self).pending() == Seq::<(Seq<u8>, Seq<u8>)>::empty(),
            final(self).journal() == old(self).journal(),
            final(self).first() == old(self).first(),
            final(self).found_gap() == old(self).found_gap(),
            final(self).reached() == old(self).reached(),
            final(self).fed() == old(self).fed(),
    {
        let mut batch: Vec<Row> = Vec::new();
        std::mem::swap(&mut batch, &mut self.batch);
        assert(self.pending() =~= Seq::<(Seq<u8>, Seq<u8>)>::empty());
        batch
    }

    /// Enter the gap into the pass's report. This comes before anything is copied, so a copy that
    /// is refused later leaves its gap reported.
    pub fn note_gap(&self, report: &mut PassReport)
        ensures
            final(report)@ == noted(old(report)@, self.found_gap()),
    {
        if let Some(gap) = self.gap {
            report.gaps.push(gap);
        }
    }

    /// Enter a copy whose every batch has been committed into the pass's report.
    pub fn record(&self, report: &mut PassReport)
        ensures
            final(report)@ == recorded(
                old(report)@,
                self.journal(),
                self.fed() as nat,
                self.reached(),
            ),
    {
        if self.copied > 0 {
            report.copied.insert(self.cf, self.copied);
        }
        if let Some(tip) = self.highest {
            report.watermarks.insert(self.cf, tip);
        }
    }
}

/// The wholesale copy of one family under way.
///
/// No resume point exists for these: `DepositMap` and `Treasury` are single blobs rewritten in
/// place, so the newest value simply replaces the archived one. Re-writing an unchanged key is
/// cheap and idempotent, which is why this needs no change detection.
pub struct FamilyCopy {
    cf: Cf,
    batch: Vec<Row>,
    copied: u64,
}

impl FamilyCopy {
    pub closed spec fn family(&self) -> Cf {
        self.cf
    }

    /// The rows still to commit.
    pub closed spec fn pending(&self) -> Seq<(Seq<u8>, Seq<u8>)> {
        rows_view(self.batch@)
    }

    /// How many rows have been fed.
    pub closed spec fn fed(&self) -> u64 {
        self.copied
    }

    pub fn start(cf: Cf) -> (r: FamilyCopy)
        ensures
            r.family() == cf,
            r.pending() == Seq::<(Seq<u8>, Seq<u8>)>::empty(),
            r.fed() == 0,
    {
        let r = FamilyCopy { cf, batch: Vec::new(), copied: 0 };
        assert(r.pending() =~= Seq::<(Seq<u8>, Seq<u8>)>::empty());
        r
    }

    /// How many rows have been fed.
    pub(crate) fn count(&self) -> (r: u64)
        ensures
            r == self.fed(),
    {
        self.copied
    }

    /// Feed one row. `true` when enough is pending that the batch is to be committed.
    pub fn feed(&mut self, row: Row) -> (r: bool)
        requires
            old(self).fed() < u64::MAX,
        ensures
            final(self).family() == old(self).family(),
            final(self).pending() == old(self).pending().push(row@),
            final(self).fed() == old(self).fed() + 1,
            r == (final(self).pending().len() >= BATCH),
    {
        let ghost before = self.pending();
        let ghost view = row@;
        self.batch.push(row);
        assert(self.pending() =~= before.push(view));
        self.copied = self.copied + 1;
        self.batch.len() >= BATCH
    }

    /// Hand out the rows to commit.
    pub fn take_batch(&mut self) -> (r: Vec<Row>)
        ensures
            rows_view(r@) == old(self).pending(),
            final(self).pending() == Seq::<(Seq<u8>, Seq<u8>)>::empty(),
            final(self).family() == old(self).family(),
            final(self).fed() == old(self).fed(),
    {
        let mut batch: Vec<Row> = Vec::new();
        std::mem::swap(&mut batch, &mut self.batch);
        assert(self.pending() =~= Seq::<(Seq<u8>, Seq<u8>)>::empty());
        batch
    }

    /// Enter a copy whose every batch has been committed into the pass's report.
    pub fn record(&self, report: &mut PassReport)
        ensures
            final(report)@ == recorded(old(report)@, self.family(), self.fed() as nat, None),
    {
        if self.copied > 0 {
            report.copied.insert(self.cf, self.copied);
        }
    }
}

/// A report once a journal's gap has been entered, if it has one.
pub open spec fn noted(report: ReportView, gap: Option<Gap>) -> ReportView {
    ReportView {
        gaps: match gap {
            Some(gap) => report.gaps.push(gap),
            None => report.gaps,
        },
        ..report
    }
}

/// A report once a copy has been entered: how many entries it copied where it copied any, and how
/// far the archive now reaches.
pub open spec fn recorded(
    report: ReportView,
    cf: Cf,
    copied: nat,
    reached: Option<u64>,
) -> ReportView {
    ReportView {
        watermarks: match reached {
            Some(tip) => report.watermarks.insert(cf, tip),
            None => report.watermarks,
        },
        copied: if copied > 0 {
            report.copied.insert(cf, copied as u64)
        } else {
            report.copied
        },
        ..report
    }
}

/// A pass under way: what the archive holds, what the report says, and the refusal that ended it,
/// if one did.
pub struct PassView {
    pub archive: Map<Seq<char>, Seq<(Seq<u8>, Seq<u8>)>>,
    pub report: ReportView,
    pub failed: Option<StoreError>,
}

/// A pass about to start.
pub open spec fn starting(archive: Map<Seq<char>, Seq<(Seq<u8>, Seq<u8>)>>) -> PassView {
    PassView { archive, report: blank_report(), failed: None }
}

/// How many rows from the front of a journal's rows can be read as entries.
pub open spec fn readable(cf: Cf, rows: Seq<(Seq<u8>, Seq<u8>)>) -> nat
    decreases rows.len(),
{
    if rows.len() == 0 || entry_fault(cf, rows[0].0, rows[0].1) is Some {
        0
    } else {
        1 + readable(cf, rows.drop_first())
    }
}

/// How many of `n` rows stand in whole batches.
pub open spec fn in_whole_batches(n: nat) -> nat {
    (n / BATCH as nat * BATCH as nat) as nat
}

/// An archive once rows have been written into one of its families.
pub open spec fn archive_with(
    archive: Map<Seq<char>, Seq<(Seq<u8>, Seq<u8>)>>,
    cf: Cf,
    rows: Seq<(Seq<u8>, Seq<u8>)>,
) -> Map<Seq<char>, Seq<(Seq<u8>, Seq<u8>)>> {
    if rows.len() == 0 {
        archive
    } else {
        archive.insert(cf.name_chars(), with_rows(archive[cf.name_chars()], rows))
    }
}

/// The rows of a journal that a pass reads: those from where the copy resumes.
pub open spec fn to_copy(
    store: Map<Seq<char>, Seq<(Seq<u8>, Seq<u8>)>>,
    archive: Map<Seq<char>, Seq<(Seq<u8>, Seq<u8>)>>,
    cf: Cf,
) -> Result<Seq<(Seq<u8>, Seq<u8>)>, StoreError> {
    match archived_tip(archive, cf) {
        Err(e) => Err(e),
        Ok(tip) => match stored_rows(store, cf) {
            Err(e) => Err(e),
            Ok(rows) => match floor_of(cf, rows) {
                Err(e) => Err(e),
                Ok(floor) => match encoded_key(cf, resume_from(tip, floor) as u64) {
                    Err(e) => Err(e),
                    Ok(start) => Ok(rows_from(rows, start)),
                },
            },
        },
    }
}

/// The gap that a pass finds in a journal, once it knows how far the archive and the node reach.
pub open spec fn gap_found(
    store: Map<Seq<char>, Seq<(Seq<u8>, Seq<u8>)>>,
    archive: Map<Seq<char>, Seq<(Seq<u8>, Seq<u8>)>>,
    cf: Cf,
) -> Option<Gap> {
    match (archived_tip(archive, cf), stored_rows(store, cf)) {
        (Ok(tip), Ok(rows)) => match floor_of(cf, rows) {
            Ok(floor) => gap_in(cf, tip, floor),
            Err(_) => None,
        },
        _ => None,
    }
}

/// How far an archive reaches once rows have been copied into it.
pub open spec fn reach(tip: Option<u64>, copied: Seq<(Seq<u8>, Seq<u8>)>) -> Option<u64> {
    if copied.len() == 0 {
        tip
    } else {
        Some(be_value(copied.last().0) as u64)
    }
}

/// A pass once it has copied a journal. A row that cannot be read ends it, with the whole batches
/// before that row archived; the report then has the journal's gap, and neither a count nor a
/// watermark for it.
pub open spec fn after_journal(
    store: Map<Seq<char>, Seq<(Seq<u8>, Seq<u8>)>>,
    pass: PassView,
    cf: Cf,
) -> PassView {
    if pass.failed is Some {
        pass
    } else {
        let report = noted(pass.report, gap_found(store, pass.archive, cf));
        match to_copy(store, pass.archive, cf) {
            Err(e) => PassView { report, failed: Some(e), ..pass },
            Ok(rows) => {
                let good = readable(cf, rows);
                if good < rows.len() {
                    PassView {
                        archive: archive_with(
                            pass.archive,
                            cf,
                            rows.take(in_whole_batches(good) as int),
                        ),
                        report,
                        failed: entry_fault(cf, rows[good as int].0, rows[good as int].1),
                    }
                } else {
                    let tip = archived_tip(pass.archive, cf)->Ok_0;
                    PassView {
                        archive: archive_with(pass.archive, cf, rows),
                        report: recorded(report, cf, rows.len(), reach(tip, rows)),
                        failed: None,
                    }
                }
            },
        }
    }
}

/// A pass once it has copied journals, one after the other.
pub open spec fn after_journals(
    store: Map<Seq<char>, Seq<(Seq<u8>, Seq<u8>)>>,
    pass: PassView,
    journals: Seq<Cf>,
) -> PassView
    decreases journals.len(),
{
    if journals.len() == 0 {
        pass
    } else {
        after_journal(store, after_journals(store, pass, journals.drop_last()), journals.last())
    }
}

/// A pass once it has copied a family wholesale.
pub open spec fn after_family(
    store: Map<Seq<char>, Seq<(Seq<u8>, Seq<u8>)>>,
    pass: PassView,
    cf: Cf,
) -> PassView {
    if pass.failed is Some {
        pass
    } else {
        match stored_rows(store, cf) {
            Err(e) => PassView { failed: Some(e), ..pass },
            Ok(rows) => if rows.len() == 0 {
                pass
            } else {
                match archived_rows(pass.archive, cf) {
                    Err(e) => PassView { failed: Some(e), ..pass },
                    Ok(_) => PassView {
                        archive: archive_with(pass.archive, cf, rows),
                        report: recorded(pass.report, cf, rows.len(), None),
                        failed: None,
                    },
                }
            },
        }
    }
}

/// A pass once it has copied those of `families` that are no journals.
pub open spec fn after_families(
    store: Map<Seq<char>, Seq<(Seq<u8>, Seq<u8>)>>,
    pass: PassView,
    families: Seq<Cf>,
) -> PassView
    decreases families.len(),
{
    if families.len() == 0 {
        pass
    } else {
        let before = after_families(store, pass, families.drop_last());
        if families.last().journal() {
            before
        } else {
            after_family(store, before, families.last())
        }
    }
}

/// A whole pass: the journals, then, in a full pass, the other families.
pub open spec fn after_pass(
    store: Map<Seq<char>, Seq<(Seq<u8>, Seq<u8>)>>,
    families: Seq<Cf>,
    archive: Map<Seq<char>, Seq<(Seq<u8>, Seq<u8>)>>,
    full: bool,
) -> PassView {
    let tail = after_journals(store, starting(archive), journals_of(families));
    if full {
        after_families(store, tail, families)
    } else {
        tail
    }
}

/// Whether an archive already holds a journal's last possible index, so that there is none to
/// resume from.
pub open spec fn at_last_index(
    archive: Map<Seq<char>, Seq<(Seq<u8>, Seq<u8>)>>,
    cf: Cf,
) -> bool {
    archived_tip(archive, cf) == Ok::<Option<u64>, StoreError>(Some(u64::MAX))
}

/// Whether every journal that a pass comes to has an index to resume from.
pub open spec fn resumable(
    store: Map<Seq<char>, Seq<(Seq<u8>, Seq<u8>)>>,
    pass: PassView,
    journals: Seq<Cf>,
) -> bool
    decreases journals.len(),
{
    if journals.len() == 0 {
        true
    } else {
        let before = after_journals(store, pass, journals.drop_last());
        &&& resumable(store, pass, journals.drop_last())
        &&& before.failed is None ==> !at_last_index(before.archive, journals.last())
    }
}

/// Run one pass.
///
/// `full` copies the non-journal families too. They have no index to resume from (snapshots are
/// rewritten in place, confirmations key by block or stack, the reverse indices key by request id)
/// so each one costs a whole-family scan and they run on a slower cadence than the journal tail.
///
/// **One view of the store for the whole pass.** Everything copied comes from a single consistent
/// moment: the snapshots line up with the journals they are supposed to agree with, by
/// construction rather than by timing.
pub fn run(source: &HeadStore, archive: &mut ArchiveStore, full: bool) -> (r: Result<
    PassReport,
    StoreError,
>)
    requires
        resumable(source@, starting(old(archive)@), journals_of(source.known())),
    ensures
        ordered(source@),
        all_nameable(source.known()),
        ordered(old(archive)@),
        ordered(final(archive)@),
        ({
            let after = after_pass(source@, source.known(), old(archive)@, full);
            &&& final(archive)@ == after.archive
            &&& match r {
                Ok(report) => after.failed is None && report@ == after.report,
                Err(e) => after.failed == Some(e),
            }
        }),
{
    proof {
        use_type_invariant(source);
        use_type_invariant(&*archive);
    }
    let ghost start = archive@;
    let ghost families = source.known();
    let (mut pass, mut ask) = Pass::begin(source.families(), full);
    let none: Vec<Row> = Vec::new();
    let mut walk: &Vec<Row> = &none;
    let mut at: usize = 0;
    proof {
        law_a_pass_begins_on_course(families, full, world(source@, start, walk@, 0));
    }
    loop
        invariant
            at <= walk@.len(),
            families == source.known(),
            resumable(source@, starting(start), journals_of(families)),
            pass@.todo == to_do(families, full),
            on_course(starting(start), pass@, ask@, world(source@, archive@, walk@, at as int)),
            counted(pass@.stage) <= at,
        ensures
            ask@ is Nothing,
            on_course(starting(start), pass@, ask@, world(source@, archive@, walk@, at as int)),
        decreases
            left(pass@, world(source@, archive@, walk@, at as int)).0,
            left(pass@, world(source@, archive@, walk@, at as int)).1,
            left(pass@, world(source@, archive@, walk@, at as int)).2,
            left(pass@, world(source@, archive@, walk@, at as int)).3,
    {
        let ghost w = world(source@, archive@, walk@, at as int);
        if let Ask::Nothing = ask {
            break;
        }
        proof {
            law_every_step_leads_on(starting(start), pass@, ask@, w);
            if pass@.stage is Tip {
                lemma_tip_is_taken(families, start, full, pass@, ask@, w);
            }
        }
        let ghost told_of = told(w, ask@);
        let answer = match ask {
            Ask::LastArchived { cf } => match archive.rows(cf) {
                Ok(rows) => Answer::Key(last_key(rows)),
                Err(_) => Answer::NoFamily,
            },
            Ask::FirstStored { cf } => match source.scan_raw(cf) {
                Ok(rows) => Answer::Key(first_key(rows)),
                Err(_) => Answer::NoFamily,
            },
            Ask::Seek { cf, from: None } => match source.scan_raw(cf) {
                Ok(rows) => {
                    walk = rows;
                    at = 0;
                    assert(rows_view(walk@).skip(0) =~= rows_view(walk@));
                    Answer::Done
                },
                Err(_) => Answer::NoFamily,
            },
            Ask::Seek { cf, from: Some(key) } => match source.seek_raw(cf, key.as_slice()) {
                Ok((rows, first)) => {
                    walk = rows;
                    at = first;
                    Answer::Done
                },
                Err(_) => Answer::NoFamily,
            },
            Ask::NextRow => if at < walk.len() {
                let row = walk[at].copy();
                at = at + 1;
                assert(w.rest.drop_first() =~= rows_view(walk@).skip(at as int));
                Answer::Next(Some(row))
            } else {
                Answer::Next(None)
            },
            Ask::Commit { cf, rows } => match archive.put_raw(cf, &rows) {
                Ok(_) => Answer::Done,
                Err(_) => Answer::NoFamily,
            },
            Ask::Nothing => Answer::Done,
        };
        assert(answer@ == told_of.0);
        let (next, then_ask) = pass.answer(answer);
        pass = next;
        ask = then_ask;
    }
    proof {
        let w = world(source@, archive@, walk@, at as int);
        law_a_led_pass_is_the_pass(families, start, full, pass@, ask@, w);
        use_type_invariant(&*archive);
    }
    pass.outcome()
}

/// A store and an archive, and what is left of a walk that has come to the row at `at`.
spec fn world(
    store: Map<Seq<char>, Seq<(Seq<u8>, Seq<u8>)>>,
    archive: Map<Seq<char>, Seq<(Seq<u8>, Seq<u8>)>>,
    walk: Seq<Row>,
    at: int,
) -> World {
    World { store, archive, rest: rows_view(walk).skip(at) }
}

/// How many rows of a family have been read.
spec fn counted(stage: StageView) -> nat {
    match stage {
        StageView::Reading { copied, .. } => copied,
        StageView::Committing { copied, .. } => copied,
        _ => 0,
    }
}

fn first_key(rows: &Vec<Row>) -> (r: Option<Vec<u8>>)
    ensures
        Answer::Key(r)@ == AnswerView::Key(
            if rows@.len() == 0 {
                None
            } else {
                Some(rows_view(rows@)[0].0)
            },
        ),
{
    if rows.len() == 0 {
        None
    } else {
        Some(copy_bytes(rows[0].key.as_slice()))
    }
}

fn last_key(rows: &Vec<Row>) -> (r: Option<Vec<u8>>)
    ensures
        Answer::Key(r)@ == AnswerView::Key(
            if rows@.len() == 0 {
                None
            } else {
                Some(rows_view(rows@).last().0)
            },
        ),
{
    if rows.len() == 0 {
        None
    } else {
        Some(copy_bytes(rows[rows.len() - 1].key.as_slice()))
    }
}

} // verus!
