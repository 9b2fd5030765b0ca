//! A pass, step by step: what to do next, given what came of the last step.
//!
//! [`Pass`] decides and the caller does: it looks up a key, walks a family, commits a batch, and
//! hands back what it found. Where that leads is the matter of
//! [`crate::archiver::course`].

use crate::archiver::pass::{
    blank_report, gap_in, noted, recorded, resume_from, FamilyCopy, JournalCopy, PassReport,
    ReportView, BATCH,
};
use crate::bytes::be_value;
use crate::store::cf::Cf;
use crate::store::error::StoreError;
use crate::store::head_store::journals_of;
use crate::store::journal::{
    decode_key, decoded_key, encode_key, encoded_key, entry_fault,
    law_entry_is_stored_as_it_was_read, read_entry,
};
use crate::store::table::{rows_view, Row};
use vstd::prelude::*;

verus! {

/// What a pass asks for.
pub enum Ask {
    /// The last key that the archive holds of a journal.
    LastArchived { cf: Cf },
    /// The first key that the node holds of a journal.
    FirstStored { cf: Cf },
    /// To begin a walk of what the node holds of a family: from a key on, or from its first row.
    Seek { cf: Cf, from: Option<Vec<u8>> },
    /// The next row of the walk.
    NextRow,
    /// To write rows into a family of the archive, durably and all or none.
    Commit { cf: Cf, rows: Vec<Row> },
    /// Nothing more.
    Nothing,
}

/// What came of it.
pub enum Answer {
    /// There is no such family.
    NoFamily,
    /// The key, where there is a row.
    Key(Option<Vec<u8>>),
    /// The row, or that the walk is over.
    Next(Option<Row>),
    /// It has been done.
    Done,
}

/// What an [`Ask`] says.
pub enum AskView {
    LastArchived { cf: Cf },
    FirstStored { cf: Cf },
    Seek { cf: Cf, from: Option<Seq<u8>> },
    NextRow,
    Commit { cf: Cf, rows: Seq<(Seq<u8>, Seq<u8>)> },
    Nothing,
}

/// What an [`Answer`] says.
pub enum AnswerView {
    NoFamily,
    Key(Option<Seq<u8>>),
    Next(Option<(Seq<u8>, Seq<u8>)>),
    Done,
}

impl View for Ask {
    type V = AskView;

    open spec fn view(&self) -> AskView {
        match self {
            Ask::LastArchived { cf } => AskView::LastArchived { cf: *cf },
            Ask::FirstStored { cf } => AskView::FirstStored { cf: *cf },
            Ask::Seek { cf, from } => AskView::Seek {
                cf: *cf,
                from: match from {
                    Some(key) => Some(key@),
                    None => None,
                },
            },
            Ask::NextRow => AskView::NextRow,
            Ask::Commit { cf, rows } => AskView::Commit { cf: *cf, rows: rows_view(rows@) },
            Ask::Nothing => AskView::Nothing,
        }
    }
}

impl View for Answer {
    type V = AnswerView;

    open spec fn view(&self) -> AnswerView {
        match self {
            Answer::NoFamily => AnswerView::NoFamily,
            Answer::Key(key) => AnswerView::Key(
                match key {
                    Some(key) => Some(key@),
                    None => None,
                },
            ),
            Answer::Next(row) => AnswerView::Next(
                match row {
                    Some(row) => Some(row@),
                    None => None,
                },
            ),
            Answer::Done => AnswerView::Done,
        }
    }
}

/// Where a pass stands in the family it has come to.
pub enum StageView {
    /// It asks how far the archive reaches.
    Tip,
    /// It asks how far back the node reaches.
    Floor { tip: Option<u64> },
    /// It asks for the walk.
    Seek { reached: Option<u64> },
    /// It walks.
    Reading { copied: nat, reached: Option<u64>, pending: Seq<(Seq<u8>, Seq<u8>)> },
    /// It commits, and then walks on, or has walked to the end.
    Committing { copied: nat, reached: Option<u64>, last: bool },
    /// It is through with all families.
    Through,
    /// It has been refused.
    Refused { error: StoreError },
}

/// Where a pass stands: the families it copies, how many of them it is through with, what its
/// report says, and where it stands in the next.
pub struct PassState {
    pub todo: Seq<Cf>,
    pub at: int,
    pub report: ReportView,
    pub stage: StageView,
}

/// The families that are no journals.
pub open spec fn others_of(families: Seq<Cf>) -> Seq<Cf>
    decreases families.len(),
{
    if families.len() == 0 {
        Seq::empty()
    } else if families.last().journal() {
        others_of(families.drop_last())
    } else {
        others_of(families.drop_last()).push(families.last())
    }
}

/// The families that a pass copies: the journals, then, in a full pass, the others.
pub open spec fn to_do(families: Seq<Cf>, full: bool) -> Seq<Cf> {
    if full {
        journals_of(families) + others_of(families)
    } else {
        journals_of(families)
    }
}

/// A pass that comes to a family, and what it asks.
pub open spec fn coming_to(todo: Seq<Cf>, at: int, report: ReportView) -> (PassState, AskView) {
    if at >= todo.len() {
        (PassState { todo, at, report, stage: StageView::Through }, AskView::Nothing)
    } else if todo[at].journal() {
        (
            PassState { todo, at, report, stage: StageView::Tip },
            AskView::LastArchived { cf: todo[at] },
        )
    } else {
        (
            PassState { todo, at, report, stage: StageView::Seek { reached: None } },
            AskView::Seek { cf: todo[at], from: None },
        )
    }
}

/// A pass that is through with a family.
pub open spec fn through_with(p: PassState, copied: nat, reached: Option<u64>) -> (
    PassState,
    AskView,
) {
    coming_to(p.todo, p.at + 1, recorded(p.report, p.todo[p.at], copied, reached))
}

/// A pass that is refused.
pub open spec fn refused(p: PassState, error: StoreError) -> (PassState, AskView) {
    (PassState { stage: StageView::Refused { error }, ..p }, AskView::Nothing)
}

/// The index that a key names, where there is a key.
pub open spec fn index_of(cf: Cf, key: Option<Seq<u8>>) -> Result<Option<u64>, StoreError> {
    match key {
        None => Ok(None),
        Some(key) => match decoded_key(cf, key) {
            Ok(index) => Ok(Some(index)),
            Err(e) => Err(e),
        },
    }
}

/// A pass that has learnt how far back the node reaches: it notes the gap, and asks for the rows
/// past what the archive holds.
pub open spec fn bounded(p: PassState, tip: Option<u64>, floor: Option<u64>) -> (
    PassState,
    AskView,
) {
    let cf = p.todo[p.at];
    let p = PassState { report: noted(p.report, gap_in(cf, tip, floor)), ..p };
    match encoded_key(cf, resume_from(tip, floor) as u64) {
        Err(e) => refused(p, e),
        Ok(key) => (
            PassState { stage: StageView::Seek { reached: tip }, ..p },
            AskView::Seek { cf, from: Some(key) },
        ),
    }
}

/// A pass that has been handed a row: it takes it into the batch, and asks for the batch to be
/// committed once it is full.
pub open spec fn fed(
    p: PassState,
    copied: nat,
    reached: Option<u64>,
    pending: Seq<(Seq<u8>, Seq<u8>)>,
    row: (Seq<u8>, Seq<u8>),
) -> (PassState, AskView) {
    let cf = p.todo[p.at];
    let copied = copied + 1;
    let pending = pending.push(row);
    let reached = if cf.journal() {
        Some(be_value(row.0) as u64)
    } else {
        reached
    };
    if cf.journal() && entry_fault(cf, row.0, row.1) is Some {
        refused(p, entry_fault(cf, row.0, row.1)->0)
    } else if pending.len() >= BATCH {
        (
            PassState { stage: StageView::Committing { copied, reached, last: false }, ..p },
            AskView::Commit { cf, rows: pending },
        )
    } else {
        (
            PassState { stage: StageView::Reading { copied, reached, pending }, ..p },
            AskView::NextRow,
        )
    }
}

/// A pass that walks on with an empty batch.
pub open spec fn walking(p: PassState, copied: nat, reached: Option<u64>) -> (PassState, AskView) {
    (
        PassState {
            stage: StageView::Reading { copied, reached, pending: Seq::empty() },
            ..p
        },
        AskView::NextRow,
    )
}

/// Where a pass stands after an answer, and what it asks next.
pub open spec fn stepped(p: PassState, a: AnswerView) -> (PassState, AskView) {
    let cf = p.todo[p.at];
    match (p.stage, a) {
        (StageView::Tip, AnswerView::NoFamily) => refused(p, StoreError::MissingFromArchive { cf }),
        (StageView::Tip, AnswerView::Key(key)) => match index_of(cf, key) {
            Err(e) => refused(p, e),
            Ok(tip) => (
                PassState { stage: StageView::Floor { tip }, ..p },
                AskView::FirstStored { cf },
            ),
        },
        (StageView::Floor { .. }, AnswerView::NoFamily) => refused(
            p,
            StoreError::MissingFromStore { cf },
        ),
        (StageView::Floor { tip }, AnswerView::Key(key)) => match index_of(cf, key) {
            Err(e) => refused(p, e),
            Ok(floor) => bounded(p, tip, floor),
        },
        (StageView::Seek { .. }, AnswerView::NoFamily) => refused(
            p,
            StoreError::MissingFromStore { cf },
        ),
        (StageView::Seek { reached }, AnswerView::Done) => walking(p, 0, reached),
        (StageView::Reading { copied, reached, pending }, AnswerView::Next(Some(row))) => fed(
            p,
            copied,
            reached,
            pending,
            row,
        ),
        (StageView::Reading { copied, reached, pending }, AnswerView::Next(None)) =>
            if pending.len() == 0 {
                through_with(p, copied, reached)
            } else {
                (
                    PassState { stage: StageView::Committing { copied, reached, last: true }, ..p },
                    AskView::Commit { cf, rows: pending },
                )
            },
        (StageView::Committing { .. }, AnswerView::NoFamily) => refused(
            p,
            StoreError::MissingFromArchive { cf },
        ),
        (StageView::Committing { copied, reached, last }, AnswerView::Done) => if last {
            through_with(p, copied, reached)
        } else {
            walking(p, copied, reached)
        },
        _ => (p, AskView::Nothing),
    }
}

/// Whether a pass can take an answer: it is one to what was asked, the archive does not hold a
/// journal's last possible index already, and the rows can be counted.
pub open spec fn takes(p: PassState, a: AnswerView) -> bool {
    match (p.stage, a) {
        (StageView::Tip, AnswerView::NoFamily) => true,
        (StageView::Tip, AnswerView::Key(key)) => index_of(p.todo[p.at], key) != Ok::<
            Option<u64>,
            StoreError,
        >(Some(u64::MAX)),
        (StageView::Floor { .. }, AnswerView::NoFamily) => true,
        (StageView::Floor { .. }, AnswerView::Key(_)) => true,
        (StageView::Seek { .. }, AnswerView::NoFamily) => true,
        (StageView::Seek { .. }, AnswerView::Done) => true,
        (StageView::Reading { copied, .. }, AnswerView::Next(row)) => row is Some ==> copied
            < u64::MAX,
        (StageView::Committing { .. }, AnswerView::NoFamily) => true,
        (StageView::Committing { .. }, AnswerView::Done) => true,
        _ => false,
    }
}

/// The copy of one family under way.
enum Copying {
    Journal(JournalCopy),
    Family(FamilyCopy),
}

impl Copying {
    spec fn of(self, cf: Cf) -> bool {
        match self {
            Copying::Journal(copy) => cf.journal() && copy.journal() == cf,
            Copying::Family(copy) => !cf.journal() && copy.family() == cf,
        }
    }

    spec fn pending(self) -> Seq<(Seq<u8>, Seq<u8>)> {
        match self {
            Copying::Journal(copy) => copy.pending(),
            Copying::Family(copy) => copy.pending(),
        }
    }

    spec fn copied(self) -> u64 {
        match self {
            Copying::Journal(copy) => copy.fed(),
            Copying::Family(copy) => copy.fed(),
        }
    }

    spec fn reached(self) -> Option<u64> {
        match self {
            Copying::Journal(copy) => copy.reached(),
            Copying::Family(_) => None,
        }
    }

    /// How many rows have been fed.
    fn count(&self) -> (r: u64)
        ensures
            r == self.copied(),
    {
        match self {
            Copying::Journal(copy) => copy.count(),
            Copying::Family(copy) => copy.count(),
        }
    }

    /// Feed one row. `true` when enough is pending that the batch is to be committed.
    fn feed(self, cf: Cf, row: Row) -> (r: (Copying, Result<bool, StoreError>))
        requires
            self.of(cf),
            self.copied() < u64::MAX,
        ensures
            match r.1 {
                Ok(full) => {
                    &&& !(cf.journal() && entry_fault(cf, row@.0, row@.1) is Some)
                    &&& r.0.of(cf)
                    &&& r.0.pending() == self.pending().push(row@)
                    &&& r.0.copied() == self.copied() + 1
                    &&& r.0.reached() == (if cf.journal() {
                        Some(be_value(row@.0) as u64)
                    } else {
                        self.reached()
                    })
                    &&& full == (r.0.pending().len() >= BATCH)
                },
                Err(e) => cf.journal() && entry_fault(cf, row@.0, row@.1) == Some(e),
            },
    {
        match self {
            Copying::Journal(copy) => {
                let mut copy = copy;
                match read_entry(cf, row.key.as_slice(), row.value.as_slice()) {
                    Ok(entry) => {
                        proof {
                            law_entry_is_stored_as_it_was_read(entry, cf, row@.0, row@.1);
                        }
                        let full = copy.feed(&entry);
                        (Copying::Journal(copy), full)
                    },
                    Err(e) => (Copying::Journal(copy), Err(e)),
                }
            },
            Copying::Family(copy) => {
                let mut copy = copy;
                let full = copy.feed(row);
                (Copying::Family(copy), Ok(full))
            },
        }
    }

    /// Hand out the rows to commit.
    fn take_batch(self, cf: Cf) -> (r: (Copying, Vec<Row>))
        requires
            self.of(cf),
        ensures
            rows_view(r.1@) == self.pending(),
            r.0.of(cf),
            r.0.pending() == Seq::<(Seq<u8>, Seq<u8>)>::empty(),
            r.0.copied() == self.copied(),
            r.0.reached() == self.reached(),
    {
        match self {
            Copying::Journal(copy) => {
                let mut copy = copy;
                let batch = copy.take_batch();
                (Copying::Journal(copy), batch)
            },
            Copying::Family(copy) => {
                let mut copy = copy;
                let batch = copy.take_batch();
                (Copying::Family(copy), batch)
            },
        }
    }

    /// Enter a copy whose every batch has been committed into the pass's report.
    fn record(&self, cf: Cf, report: &mut PassReport)
        requires
            self.of(cf),
        ensures
            final(report)@ == recorded(old(report)@, cf, self.copied() as nat, self.reached()),
    {
        match self {
            Copying::Journal(copy) => copy.record(report),
            Copying::Family(copy) => copy.record(report),
        }
    }
}

enum Stage {
    Tip,
    Floor { tip: Option<u64> },
    Seek { copy: Copying },
    Reading { copy: Copying },
    Committing { copy: Copying, last: bool },
    Through,
    Refused { error: StoreError },
}

/// A pass under way.
pub struct Pass {
    todo: Vec<Cf>,
    at: usize,
    report: PassReport,
    stage: Stage,
}

impl View for Pass {
    type V = PassState;

    closed spec fn view(&self) -> PassState {
        PassState {
            todo: self.todo@,
            at: self.at as int,
            report: self.report@,
            stage: match self.stage {
                Stage::Tip => StageView::Tip,
                Stage::Floor { tip } => StageView::Floor { tip },
                Stage::Seek { copy } => StageView::Seek { reached: copy.reached() },
                Stage::Reading { copy } => StageView::Reading {
                    copied: copy.copied() as nat,
                    reached: copy.reached(),
                    pending: copy.pending(),
                },
                Stage::Committing { copy, last } => StageView::Committing {
                    copied: copy.copied() as nat,
                    reached: copy.reached(),
                    last,
                },
                Stage::Through => StageView::Through,
                Stage::Refused { error } => StageView::Refused { error },
            },
        }
    }
}

impl Pass {
    #[verifier::type_invariant]
    spec fn proper(self) -> bool {
        &&& self.at <= self.todo@.len()
        &&& match self.stage {
            Stage::Tip => self.at < self.todo@.len() && self.todo@[self.at as int].journal(),
            Stage::Floor { tip } => {
                &&& self.at < self.todo@.len()
                &&& self.todo@[self.at as int].journal()
                &&& tip != Some(u64::MAX)
            },
            Stage::Seek { copy } => {
                &&& self.at < self.todo@.len()
                &&& copy.of(self.todo@[self.at as int])
                &&& copy.copied() == 0
                &&& copy.pending().len() == 0
            },
            Stage::Reading { copy } => {
                self.at < self.todo@.len() && copy.of(self.todo@[self.at as int])
            },
            Stage::Committing { copy, .. } => {
                &&& self.at < self.todo@.len()
                &&& copy.of(self.todo@[self.at as int])
                &&& copy.pending().len() == 0
            },
            Stage::Through => true,
            Stage::Refused { .. } => true,
        }
    }

    /// Begin a pass over a store's families, and say what to do first.
    ///
    /// `full` copies the families that are no journals too.
    pub fn begin(families: &Vec<Cf>, full: bool) -> (r: (Pass, Ask))
        ensures
            (r.0@, r.1@) == coming_to(to_do(families@, full), 0, blank_report()),
    {
        let mut todo: Vec<Cf> = Vec::new();
        push_kind(&mut todo, families, true);
        if full {
            push_kind(&mut todo, families, false);
        }
        assert(todo@ =~= to_do(families@, full));
        Pass::come_to(todo, 0, PassReport::new())
    }

    fn come_to(todo: Vec<Cf>, at: usize, report: PassReport) -> (r: (Pass, Ask))
        requires
            at <= todo@.len(),
        ensures
            (r.0@, r.1@) == coming_to(todo@, at as int, report@),
    {
        if at == todo.len() {
            return (Pass { todo, at, report, stage: Stage::Through }, Ask::Nothing);
        }
        let cf = todo[at];
        if cf.is_journal() {
            (Pass { todo, at, report, stage: Stage::Tip }, Ask::LastArchived { cf })
        } else {
            let copy = Copying::Family(FamilyCopy::start(cf));
            (Pass { todo, at, report, stage: Stage::Seek { copy } }, Ask::Seek { cf, from: None })
        }
    }

    /// What the pass has reported so far.
    pub fn report(&self) -> (r: &PassReport)
        ensures
            r@ == self@.report,
    {
        &self.report
    }

    /// Whether the pass can take an answer.
    pub fn can_take(&self, answer: &Answer) -> (r: bool)
        ensures
            r == takes(self@, answer@),
    {
        proof {
            use_type_invariant(self);
        }
        match (&self.stage, answer) {
            (Stage::Tip, Answer::Key(Some(key))) => match decode_key(
                self.todo[self.at],
                key.as_slice(),
            ) {
                Ok(index) => index < u64::MAX,
                Err(_) => true,
            },
            (Stage::Tip, Answer::Key(None)) => true,
            (Stage::Floor { .. }, Answer::Key(_)) => true,
            (Stage::Reading { copy }, Answer::Next(Some(_))) => copy.count() < u64::MAX,
            (Stage::Reading { .. }, Answer::Next(None)) => true,
            (Stage::Seek { .. }, Answer::Done) => true,
            (Stage::Committing { .. }, Answer::Done) => true,
            (Stage::Tip, Answer::NoFamily) => true,
            (Stage::Floor { .. }, Answer::NoFamily) => true,
            (Stage::Seek { .. }, Answer::NoFamily) => true,
            (Stage::Committing { .. }, Answer::NoFamily) => true,
            (_, _) => false,
        }
    }

    /// Take in what came of the last step, and say what to do next.
    pub fn answer(self, answer: Answer) -> (r: (Pass, Ask))
        requires
            takes(self@, answer@),
        ensures
            (r.0@, r.1@) == stepped(self@, answer@),
    {
        proof {
            use_type_invariant(&self);
        }
        let Pass { todo, at, report, stage } = self;
        let cf = todo[at];
        match (stage, answer) {
            (Stage::Tip, Answer::Key(key)) => match end_of(cf, key) {
                Ok(tip) => (
                    Pass { todo, at, report, stage: Stage::Floor { tip } },
                    Ask::FirstStored { cf },
                ),
                Err(error) => refuse(todo, at, report, error),
            },
            (Stage::Floor { tip }, Answer::Key(key)) => match end_of(cf, key) {
                Ok(floor) => {
                    let mut report = report;
                    let copy = JournalCopy::start(cf, tip, floor);
                    copy.note_gap(&mut report);
                    match encode_key(cf, copy.from()) {
                        Ok(key) => {
                            let stage = Stage::Seek { copy: Copying::Journal(copy) };
                            (Pass { todo, at, report, stage }, Ask::Seek { cf, from: Some(key) })
                        },
                        Err(error) => refuse(todo, at, report, error),
                    }
                },
                Err(error) => refuse(todo, at, report, error),
            },
            (Stage::Seek { copy }, Answer::Done) => {
                assert(copy.pending() =~= Seq::<(Seq<u8>, Seq<u8>)>::empty());
                (Pass { todo, at, report, stage: Stage::Reading { copy } }, Ask::NextRow)
            },
            (Stage::Reading { copy }, Answer::Next(Some(row))) => match copy.feed(cf, row) {
                (copy, Ok(true)) => {
                    let (copy, rows) = copy.take_batch(cf);
                    let stage = Stage::Committing { copy, last: false };
                    (Pass { todo, at, report, stage }, Ask::Commit { cf, rows })
                },
                (copy, Ok(false)) => (
                    Pass { todo, at, report, stage: Stage::Reading { copy } },
                    Ask::NextRow,
                ),
                (_, Err(error)) => refuse(todo, at, report, error),
            },
            (Stage::Reading { copy }, Answer::Next(None)) => {
                let (copy, rows) = copy.take_batch(cf);
                if rows.len() == 0 {
                    return through(todo, at, report, copy);
                }
                let stage = Stage::Committing { copy, last: true };
                (Pass { todo, at, report, stage }, Ask::Commit { cf, rows })
            },
            (Stage::Committing { copy, last }, Answer::Done) => if last {
                through(todo, at, report, copy)
            } else {
                assert(copy.pending() =~= Seq::<(Seq<u8>, Seq<u8>)>::empty());
                (Pass { todo, at, report, stage: Stage::Reading { copy } }, Ask::NextRow)
            },
            (Stage::Floor { .. }, _) | (Stage::Seek { .. }, _) => refuse(
                todo,
                at,
                report,
                StoreError::MissingFromStore { cf },
            ),
            (_, _) => refuse(todo, at, report, StoreError::MissingFromArchive { cf }),
        }
    }

    /// What the pass did, once there is nothing more to do, or why it was refused.
    pub fn outcome(self) -> (r: Result<PassReport, StoreError>)
        requires
            self@.stage is Through || self@.stage is Refused,
        ensures
            match r {
                Ok(report) => self@.stage is Through && report@ == self@.report,
                Err(e) => self@.stage == (StageView::Refused { error: e }),
            },
    {
        match self.stage {
            Stage::Refused { error } => Err(error),
            _ => Ok(self.report),
        }
    }
}

fn refuse(todo: Vec<Cf>, at: usize, report: PassReport, error: StoreError) -> (r: (Pass, Ask))
    requires
        at <= todo@.len(),
    ensures
        r.0@ == (PassState {
            todo: todo@,
            at: at as int,
            report: report@,
            stage: StageView::Refused { error },
        }),
        r.1@ == AskView::Nothing,
{
    (Pass { todo, at, report, stage: Stage::Refused { error } }, Ask::Nothing)
}

fn through(todo: Vec<Cf>, at: usize, report: PassReport, copy: Copying) -> (r: (Pass, Ask))
    requires
        at < todo@.len(),
        copy.of(todo@[at as int]),
    ensures
        (r.0@, r.1@) == coming_to(
            todo@,
            at + 1,
            recorded(report@, todo@[at as int], copy.copied() as nat, copy.reached()),
        ),
{
    let mut report = report;
    copy.record(todo[at], &mut report);
    assert(at < todo.len());
    Pass::come_to(todo, at + 1, report)
}

/// The index that a key names, where there is a key.
fn end_of(cf: Cf, key: Option<Vec<u8>>) -> (r: Result<Option<u64>, StoreError>)
    ensures
        r == index_of(
            cf,
            match key {
                Some(key) => Some(key@),
                None => None,
            },
        ),
{
    match key {
        None => Ok(None),
        Some(key) => match decode_key(cf, key.as_slice()) {
            Ok(index) => Ok(Some(index)),
            Err(e) => Err(e),
        },
    }
}

/// Append those of `families` that are journals, or those that are none.
fn push_kind(todo: &mut Vec<Cf>, families: &Vec<Cf>, journals: bool)
    ensures
        final(todo)@ == old(todo)@ + (if journals {
            journals_of(families@)
        } else {
            others_of(families@)
        }),
{
    let ghost start = todo@;
    let mut i: usize = 0;
    assert(families@.take(0) =~= Seq::<Cf>::empty());
    assert(todo@ =~= start + Seq::<Cf>::empty());
    while i < families.len()
        invariant
            i <= families@.len(),
            todo@ == start + (if journals {
                journals_of(families@.take(i as int))
            } else {
                others_of(families@.take(i as int))
            }),
        decreases families@.len() - i,
    {
        let cf = families[i];
        assert(families@.take(i + 1).drop_last() =~= families@.take(i as int));
        let ghost before = todo@;
        if cf.is_journal() == journals {
            todo.push(cf);
            assert(todo@ =~= start + (if journals {
                journals_of(families@.take(i + 1))
            } else {
                others_of(families@.take(i + 1))
            }));
        }
        i = i + 1;
    }
    assert(families@.take(i as int) =~= families@);
}

} // verus!
