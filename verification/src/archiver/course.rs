//! Where the steps of a pass lead.
//!
//! A [`World`] is a store and an archive that a pass is told of truthfully. Led through one, a pass
//! stays on course and comes to an end ([`law_every_step_leads_on`]), and what it has done then is
//! what a whole pass does ([`law_a_led_pass_is_the_pass`]).

use crate::archiver::archive::{archived_rows, archived_tip};
use crate::archiver::pass::{
    after_families, after_family, after_journal, after_journals, after_pass, archive_with,
    at_last_index, blank_report, gap_found, gap_in, in_whole_batches, noted, reach, readable,
    recorded, resumable, resume_from, starting, to_copy, PassView, ReportView, BATCH,
};
use crate::archiver::steps::{
    coming_to, others_of, refused, stepped, takes, through_with, to_do, AnswerView, AskView,
    PassState, StageView,
};
use crate::store::cf::Cf;
use crate::store::error::StoreError;
use crate::store::head_store::{floor_of, journals_of, stored_rows};
use crate::store::journal::{encoded_key, entry_fault};
use crate::store::table::{rows_from, with_rows};
use vstd::prelude::*;

verus! {

/// A pass once it has copied families one after the other, each after its kind.
pub open spec fn after_all(
    store: Map<Seq<char>, Seq<(Seq<u8>, Seq<u8>)>>,
    pass: PassView,
    families: Seq<Cf>,
) -> PassView
    decreases families.len(),
{
    if families.len() == 0 {
        pass
    } else {
        after_one(store, after_all(store, pass, families.drop_last()), families.last())
    }
}

/// A pass once it has copied a family after its kind.
pub open spec fn after_one(
    store: Map<Seq<char>, Seq<(Seq<u8>, Seq<u8>)>>,
    pass: PassView,
    cf: Cf,
) -> PassView {
    if cf.journal() {
        after_journal(store, pass, cf)
    } else {
        after_family(store, pass, cf)
    }
}

/// A store and an archive that a pass is led through, and what is left of the walk.
pub struct World {
    pub store: Map<Seq<char>, Seq<(Seq<u8>, Seq<u8>)>>,
    pub archive: Map<Seq<char>, Seq<(Seq<u8>, Seq<u8>)>>,
    pub rest: Seq<(Seq<u8>, Seq<u8>)>,
}

/// What comes of an ask, and what the world is like then.
pub open spec fn told(w: World, ask: AskView) -> (AnswerView, World) {
    match ask {
        AskView::LastArchived { cf } => match archived_rows(w.archive, cf) {
            Ok(rows) => (
                AnswerView::Key(
                    if rows.len() == 0 {
                        None
                    } else {
                        Some(rows.last().0)
                    },
                ),
                w,
            ),
            Err(_) => (AnswerView::NoFamily, w),
        },
        AskView::FirstStored { cf } => match stored_rows(w.store, cf) {
            Ok(rows) => (
                AnswerView::Key(
                    if rows.len() == 0 {
                        None
                    } else {
                        Some(rows[0].0)
                    },
                ),
                w,
            ),
            Err(_) => (AnswerView::NoFamily, w),
        },
        AskView::Seek { cf, from } => match stored_rows(w.store, cf) {
            Ok(rows) => (
                AnswerView::Done,
                World {
                    rest: match from {
                        Some(key) => rows_from(rows, key),
                        None => rows,
                    },
                    ..w
                },
            ),
            Err(_) => (AnswerView::NoFamily, w),
        },
        AskView::NextRow => if w.rest.len() == 0 {
            (AnswerView::Next(None), w)
        } else {
            (AnswerView::Next(Some(w.rest[0])), World { rest: w.rest.drop_first(), ..w })
        },
        AskView::Commit { cf, rows } => match archived_rows(w.archive, cf) {
            Ok(held) => (
                AnswerView::Done,
                World { archive: w.archive.insert(cf.name_chars(), with_rows(held, rows)), ..w },
            ),
            Err(_) => (AnswerView::NoFamily, w),
        },
        AskView::Nothing => (AnswerView::Done, w),
    }
}

/// The rows of a family that a pass reads.
pub open spec fn to_read(
    store: Map<Seq<char>, Seq<(Seq<u8>, Seq<u8>)>>,
    archive: Map<Seq<char>, Seq<(Seq<u8>, Seq<u8>)>>,
    cf: Cf,
) -> Result<Seq<(Seq<u8>, Seq<u8>)>, StoreError> {
    if cf.journal() {
        to_copy(store, archive, cf)
    } else {
        stored_rows(store, cf)
    }
}

/// What a pass has reported, and how far the archive reaches, when it begins to read a family.
pub open spec fn opened(w: World, before: PassView, cf: Cf) -> (ReportView, Option<u64>) {
    if cf.journal() {
        (
            noted(before.report, gap_found(w.store, before.archive, cf)),
            archived_tip(before.archive, cf)->Ok_0,
        )
    } else {
        (before.report, None)
    }
}

/// How far a copy reaches once it has taken rows.
pub open spec fn reached_by(
    cf: Cf,
    tip: Option<u64>,
    rows: Seq<(Seq<u8>, Seq<u8>)>,
) -> Option<u64> {
    if cf.journal() {
        reach(tip, rows)
    } else {
        tip
    }
}

/// Whether a pass that came to a family at `before` has read `copied` of its rows, and the archive
/// has the first `done` of them.
pub open spec fn part_way(
    before: PassView,
    cf: Cf,
    report: ReportView,
    copied: nat,
    reached: Option<u64>,
    done: int,
    w: World,
) -> bool {
    &&& to_read(w.store, before.archive, cf) matches Ok(rows)
    &&& 0 <= done <= copied <= rows.len()
    &&& w.rest == rows.skip(copied as int)
    &&& report == opened(w, before, cf).0
    &&& reached == reached_by(cf, opened(w, before, cf).1, rows.take(copied as int))
    &&& w.archive == archive_with(before.archive, cf, rows.take(done))
    &&& cf.journal() || done > 0 ==> before.archive.dom().contains(cf.name_chars())
    &&& cf.journal() ==> readable(cf, rows) == copied + readable(cf, rows.skip(copied as int))
}

/// Whether a pass that came to a family at `before` stands as it should.
pub open spec fn under_way(
    before: PassView,
    cf: Cf,
    report: ReportView,
    stage: StageView,
    ask: AskView,
    w: World,
) -> bool {
    match stage {
        StageView::Tip => {
            &&& cf.journal()
            &&& ask == AskView::LastArchived { cf }
            &&& w.archive == before.archive
            &&& report == before.report
        },
        StageView::Floor { tip } => {
            &&& cf.journal()
            &&& ask == AskView::FirstStored { cf }
            &&& w.archive == before.archive
            &&& report == before.report
            &&& archived_tip(before.archive, cf) == Ok::<Option<u64>, StoreError>(tip)
        },
        StageView::Seek { reached } => {
            &&& w.archive == before.archive
            &&& (report, reached) == opened(w, before, cf)
            &&& ask matches AskView::Seek { cf: asked, from }
            &&& asked == cf
            &&& if cf.journal() {
                &&& from matches Some(key)
                &&& before.archive.dom().contains(cf.name_chars())
                &&& stored_rows(w.store, cf) matches Ok(rows)
                &&& to_copy(w.store, before.archive, cf) == Ok::<_, StoreError>(
                    rows_from(rows, key),
                )
            } else {
                from is None
            }
        },
        StageView::Reading { copied, reached, pending } => {
            let done = in_whole_batches(copied) as int;
            let rows = to_read(w.store, before.archive, cf)->Ok_0;
            &&& ask is NextRow
            &&& part_way(before, cf, report, copied, reached, done, w)
            &&& pending == rows.subrange(done, copied as int)
        },
        StageView::Committing { copied, reached, last } => {
            let done = if last {
                in_whole_batches(copied) as int
            } else {
                copied - BATCH
            };
            let rows = to_read(w.store, before.archive, cf)->Ok_0;
            &&& part_way(before, cf, report, copied, reached, done, w)
            &&& ask == AskView::Commit { cf, rows: rows.subrange(done, copied as int) }
            &&& done < copied
            &&& if last {
                copied == rows.len()
            } else {
                in_whole_batches(copied) == copied
            }
        },
        StageView::Through => false,
        StageView::Refused { .. } => false,
    }
}

/// Whether a pass that began at `start` stands as it should: what it is through with is what
/// [`after_all`] says, and once it has nothing more to ask, so are the archive and the report.
pub open spec fn on_course(start: PassView, p: PassState, ask: AskView, w: World) -> bool {
    let before = after_all(w.store, start, p.todo.take(p.at));
    &&& 0 <= p.at <= p.todo.len()
    &&& match p.stage {
        StageView::Through => {
            &&& ask is Nothing
            &&& after_all(w.store, start, p.todo) == (PassView {
                archive: w.archive,
                report: p.report,
                failed: None,
            })
        },
        StageView::Refused { error } => {
            &&& ask is Nothing
            &&& after_all(w.store, start, p.todo) == (PassView {
                archive: w.archive,
                report: p.report,
                failed: Some(error),
            })
        },
        _ => {
            &&& p.at < p.todo.len()
            &&& before.failed is None
            &&& under_way(before, p.todo[p.at], p.report, p.stage, ask, w)
        },
    }
}

/// How much of a family is left to a pass: the stage, the rows, and whether it commits.
pub open spec fn left(p: PassState, w: World) -> (int, int, int, int) {
    let families = p.todo.len() - p.at;
    match p.stage {
        StageView::Tip => (families, 5, 0, 0),
        StageView::Floor { .. } => (families, 4, 0, 0),
        StageView::Seek { .. } => (families, 3, 0, 0),
        StageView::Reading { .. } => (families, 2, w.rest.len() as int, 0),
        StageView::Committing { last: false, .. } => (families, 2, w.rest.len() as int, 1),
        StageView::Committing { .. } => (families, 1, 0, 0),
        StageView::Through => (0, 0, 0, 0),
        StageView::Refused { .. } => (0, 0, 0, 0),
    }
}

/// Whether less is left.
pub open spec fn less(a: (int, int, int, int), b: (int, int, int, int)) -> bool {
    ||| a.0 < b.0
    ||| a.0 == b.0 && a.1 < b.1
    ||| a.0 == b.0 && a.1 == b.1 && a.2 < b.2
    ||| a.0 == b.0 && a.1 == b.1 && a.2 == b.2 && a.3 < b.3
}

proof fn lemma_all_stop(
    store: Map<Seq<char>, Seq<(Seq<u8>, Seq<u8>)>>,
    pass: PassView,
    families: Seq<Cf>,
    n: int,
)
    requires
        0 <= n <= families.len(),
        after_all(store, pass, families.take(n)).failed is Some,
    ensures
        after_all(store, pass, families) == after_all(store, pass, families.take(n)),
    decreases families.len(),
{
    if n == families.len() {
        assert(families.take(n) =~= families);
    } else {
        assert(families.drop_last().take(n) =~= families.take(n));
        lemma_all_stop(store, pass, families.drop_last(), n);
    }
}

/// A pass that is refused in a family has been refused where it should be.
proof fn lemma_refused(start: PassView, p: PassState, error: StoreError, w: World)
    requires
        0 <= p.at < p.todo.len(),
        after_one(w.store, after_all(w.store, start, p.todo.take(p.at)), p.todo[p.at]) == (
        PassView { archive: w.archive, report: p.report, failed: Some(error) }),
    ensures
        on_course(start, refused(p, error).0, refused(p, error).1, w),
{
    let next = p.todo.take(p.at + 1);
    assert(next.drop_last() =~= p.todo.take(p.at));
    assert(next.last() == p.todo[p.at]);
    lemma_all_stop(w.store, start, p.todo, p.at + 1);
}

/// A pass that comes to a family stands as it should.
proof fn lemma_coming_to(start: PassView, todo: Seq<Cf>, at: int, report: ReportView, w: World)
    requires
        0 <= at <= todo.len(),
        after_all(w.store, start, todo.take(at)) == (PassView {
            archive: w.archive,
            report,
            failed: None,
        }),
    ensures
        ({
            let (p, ask) = coming_to(todo, at, report);
            on_course(start, p, ask, w)
        }),
{
    if at == todo.len() {
        assert(todo.take(at) =~= todo);
    }
}

/// A pass that is through with a family stands as it should.
proof fn lemma_through_with(
    start: PassView,
    p: PassState,
    copied: nat,
    reached: Option<u64>,
    w: World,
)
    requires
        0 <= p.at < p.todo.len(),
        after_all(w.store, start, p.todo.take(p.at)).failed is None,
        part_way(
            after_all(w.store, start, p.todo.take(p.at)),
            p.todo[p.at],
            p.report,
            copied,
            reached,
            copied as int,
            w,
        ),
        copied == to_read(
            w.store,
            after_all(w.store, start, p.todo.take(p.at)).archive,
            p.todo[p.at],
        )->Ok_0.len(),
    ensures
        ({
            let (q, ask) = through_with(p, copied, reached);
            on_course(start, q, ask, w)
        }),
{
    let before = after_all(w.store, start, p.todo.take(p.at));
    let cf = p.todo[p.at];
    let rows = to_read(w.store, before.archive, cf)->Ok_0;
    let next = p.todo.take(p.at + 1);
    assert(next.drop_last() =~= p.todo.take(p.at));
    assert(next.last() == cf);
    assert(rows.take(copied as int) =~= rows);
    assert(after_one(w.store, before, cf) == (PassView {
        archive: w.archive,
        report: recorded(p.report, cf, copied, reached),
        failed: None,
    }));
    lemma_coming_to(
        start,
        p.todo,
        p.at + 1,
        recorded(p.report, cf, copied, reached),
        w,
    );
}

/// Rows written after rows are rows written in one go.
proof fn lemma_written_in_turn(
    rows: Seq<(Seq<u8>, Seq<u8>)>,
    first: Seq<(Seq<u8>, Seq<u8>)>,
    then_rows: Seq<(Seq<u8>, Seq<u8>)>,
)
    ensures
        with_rows(with_rows(rows, first), then_rows) == with_rows(rows, first + then_rows),
    decreases then_rows.len(),
{
    if then_rows.len() == 0 {
        assert(first + then_rows =~= first);
    } else {
        lemma_written_in_turn(rows, first, then_rows.drop_last());
        assert((first + then_rows).drop_last() =~= first + then_rows.drop_last());
    }
}

/// A batch written behind those before it.
proof fn lemma_batch_written(
    archive: Map<Seq<char>, Seq<(Seq<u8>, Seq<u8>)>>,
    cf: Cf,
    rows: Seq<(Seq<u8>, Seq<u8>)>,
    done: int,
    upto: int,
)
    requires
        0 <= done <= upto <= rows.len(),
        archive.dom().contains(cf.name_chars()),
    ensures
        archive_with(archive_with(archive, cf, rows.take(done)), cf, rows.subrange(done, upto))
            == archive_with(archive, cf, rows.take(upto)),
{
    let name = cf.name_chars();
    lemma_written_in_turn(archive[name], rows.take(done), rows.subrange(done, upto));
    assert(rows.take(done) + rows.subrange(done, upto) =~= rows.take(upto));
    if done == 0 {
        assert(rows.subrange(done, upto) =~= rows.take(upto));
    } else if done < upto {
        assert(archive_with(
            archive_with(archive, cf, rows.take(done)),
            cf,
            rows.subrange(done, upto),
        ) =~= archive_with(archive, cf, rows.take(upto)));
    }
}

proof fn lemma_batch_grows(n: nat)
    ensures
        in_whole_batches(n) <= n < in_whole_batches(n) + BATCH,
        n + 1 < in_whole_batches(n) + BATCH ==> in_whole_batches(n + 1) == in_whole_batches(n),
        n + 1 == in_whole_batches(n) + BATCH ==> in_whole_batches(n + 1) == n + 1,
{
}

/// Where a step leads that is told truthfully of.
pub open spec fn led(p: PassState, ask: AskView, w: World) -> (PassState, AskView, World) {
    let (a, next) = told(w, ask);
    let (q, then_ask) = stepped(p, a);
    (q, then_ask, next)
}

/// Whether a step leads where it should: on course, and nearer to the end.
pub open spec fn leads_on(start: PassView, p: PassState, ask: AskView, w: World) -> bool {
    let (q, then_ask, next) = led(p, ask, w);
    &&& on_course(start, q, then_ask, next)
    &&& less(left(q, next), left(p, w))
    &&& next.store == w.store
    &&& q.todo == p.todo
}

proof fn lemma_tip_kept(start: PassView, p: PassState, ask: AskView, w: World)
    requires
        on_course(start, p, ask, w),
        p.stage is Tip,
    ensures
        leads_on(start, p, ask, w),
{
    let before = after_all(w.store, start, p.todo.take(p.at));
    let cf = p.todo[p.at];
    match archived_tip(w.archive, cf) {
        Err(e) => {
            assert(after_journal(w.store, before, cf) == (PassView {
                archive: w.archive,
                report: p.report,
                failed: Some(e),
            }));
            lemma_refused(start, p, e, w);
        },
        Ok(_) => {},
    }
}

proof fn lemma_floor_kept(start: PassView, p: PassState, ask: AskView, w: World)
    requires
        on_course(start, p, ask, w),
        p.stage is Floor,
    ensures
        leads_on(start, p, ask, w),
{
    let before = after_all(w.store, start, p.todo.take(p.at));
    let cf = p.todo[p.at];
    let tip = p.stage->Floor_tip;
    match stored_rows(w.store, cf) {
        Err(e) => {
            lemma_refused(start, p, e, w);
        },
        Ok(rows) => match floor_of(cf, rows) {
            Err(e) => {
                lemma_refused(start, p, e, w);
            },
            Ok(floor) => {
                let q = PassState { report: noted(p.report, gap_in(cf, tip, floor)), ..p };
                match encoded_key(cf, resume_from(tip, floor) as u64) {
                    Err(e) => {
                        lemma_refused(start, q, e, w);
                    },
                    Ok(_) => {},
                }
            },
        },
    }
}

proof fn lemma_seek_kept(start: PassView, p: PassState, ask: AskView, w: World)
    requires
        on_course(start, p, ask, w),
        p.stage is Seek,
    ensures
        leads_on(start, p, ask, w),
{
    let before = after_all(w.store, start, p.todo.take(p.at));
    let cf = p.todo[p.at];
    match stored_rows(w.store, cf) {
        Err(e) => {
            lemma_refused(start, p, e, w);
        },
        Ok(_) => {
            let rows = to_read(w.store, before.archive, cf)->Ok_0;
            assert(rows.skip(0) =~= rows);
            assert(rows.take(0) =~= Seq::<(Seq<u8>, Seq<u8>)>::empty());
            assert(rows.subrange(0, 0) =~= Seq::<(Seq<u8>, Seq<u8>)>::empty());
        },
    }
}

proof fn lemma_reading_kept(start: PassView, p: PassState, ask: AskView, w: World)
    requires
        on_course(start, p, ask, w),
        p.stage is Reading,
    ensures
        leads_on(start, p, ask, w),
{
    let before = after_all(w.store, start, p.todo.take(p.at));
    let cf = p.todo[p.at];
    let rows = to_read(w.store, before.archive, cf)->Ok_0;
    let copied = p.stage->Reading_copied;
    let reached = p.stage->Reading_reached;
    let pending = p.stage->pending;
    let done = in_whole_batches(copied) as int;
    lemma_batch_grows(copied);
    if w.rest.len() > 0 {
        let row = rows[copied as int];
        let rest = rows.skip(copied as int);
        assert(rest[0] == row);
        assert(rest.drop_first() =~= rows.skip(copied as int + 1));
        assert(pending.push(row) =~= rows.subrange(done, copied as int + 1));
        assert(rows.take(copied as int + 1).last() == row);
        if cf.journal() && entry_fault(cf, row.0, row.1) is Some {
            assert(readable(cf, rest) == 0);
            let next = World { rest: rest.drop_first(), ..w };
            assert(after_journal(w.store, before, cf) == (PassView {
                archive: w.archive,
                report: p.report,
                failed: entry_fault(cf, row.0, row.1),
            }));
            lemma_refused(start, p, entry_fault(cf, row.0, row.1)->0, next);
        }
    } else if pending.len() == 0 {
        lemma_through_with(start, p, copied, reached, w);
    }
}

proof fn lemma_committing_kept(start: PassView, p: PassState, ask: AskView, w: World)
    requires
        on_course(start, p, ask, w),
        p.stage is Committing,
    ensures
        leads_on(start, p, ask, w),
{
    let before = after_all(w.store, start, p.todo.take(p.at));
    let cf = p.todo[p.at];
    let rows = to_read(w.store, before.archive, cf)->Ok_0;
    let copied = p.stage->Committing_copied;
    let reached = p.stage->Committing_reached;
    let last = p.stage->last;
    let done = if last {
        in_whole_batches(copied) as int
    } else {
        copied - BATCH
    };
    let batch = rows.subrange(done, copied as int);
    match archived_rows(w.archive, cf) {
        Err(e) => {
            assert(done == 0);
            assert(rows.take(0) =~= Seq::<(Seq<u8>, Seq<u8>)>::empty());
            lemma_refused(start, p, e, w);
        },
        Ok(held) => {
            lemma_batch_written(before.archive, cf, rows, done, copied as int);
            let next = World {
                archive: w.archive.insert(cf.name_chars(), with_rows(held, batch)),
                ..w
            };
            assert(next.archive == archive_with(before.archive, cf, rows.take(copied as int)));
            if last {
                lemma_through_with(start, p, copied, reached, next);
            } else {
                assert(rows.subrange(copied as int, copied as int) =~= Seq::<
                    (Seq<u8>, Seq<u8>),
                >::empty());
            }
        },
    }
}

/// Led through a store and an archive that are told truthfully of, a pass stays on course and comes
/// to an end.
pub proof fn law_every_step_leads_on(start: PassView, p: PassState, ask: AskView, w: World)
    requires
        on_course(start, p, ask, w),
        ask !is Nothing,
    ensures
        leads_on(start, p, ask, w),
{
    match p.stage {
        StageView::Tip => lemma_tip_kept(start, p, ask, w),
        StageView::Floor { .. } => lemma_floor_kept(start, p, ask, w),
        StageView::Seek { .. } => lemma_seek_kept(start, p, ask, w),
        StageView::Reading { .. } => lemma_reading_kept(start, p, ask, w),
        StageView::Committing { .. } => lemma_committing_kept(start, p, ask, w),
        StageView::Through => {},
        StageView::Refused { .. } => {},
    }
}

proof fn lemma_all_in_turn(
    store: Map<Seq<char>, Seq<(Seq<u8>, Seq<u8>)>>,
    pass: PassView,
    first: Seq<Cf>,
    second: Seq<Cf>,
)
    ensures
        after_all(store, pass, first + second) == after_all(
            store,
            after_all(store, pass, first),
            second,
        ),
    decreases second.len(),
{
    if second.len() == 0 {
        assert(first + second =~= first);
    } else {
        lemma_all_in_turn(store, pass, first, second.drop_last());
        assert((first + second).drop_last() =~= first + second.drop_last());
    }
}

proof fn lemma_all_journals(
    store: Map<Seq<char>, Seq<(Seq<u8>, Seq<u8>)>>,
    pass: PassView,
    journals: Seq<Cf>,
)
    requires
        forall|i: int| 0 <= i < journals.len() ==> (#[trigger] journals[i]).journal(),
    ensures
        after_all(store, pass, journals) == after_journals(store, pass, journals),
    decreases journals.len(),
{
    if journals.len() > 0 {
        let front = journals.drop_last();
        assert forall|i: int| 0 <= i < front.len() implies (#[trigger] front[i]).journal() by {
            assert(front[i] == journals[i]);
        }
        lemma_all_journals(store, pass, front);
        assert(journals[journals.len() - 1].journal());
    }
}

proof fn lemma_all_others(
    store: Map<Seq<char>, Seq<(Seq<u8>, Seq<u8>)>>,
    pass: PassView,
    families: Seq<Cf>,
)
    ensures
        after_all(store, pass, others_of(families)) == after_families(store, pass, families),
    decreases families.len(),
{
    if families.len() > 0 {
        let front = families.drop_last();
        lemma_all_others(store, pass, front);
        if !families.last().journal() {
            assert(others_of(families).drop_last() =~= others_of(front));
        }
    }
}

proof fn lemma_kinds(families: Seq<Cf>)
    ensures
        forall|i: int|
            0 <= i < journals_of(families).len() ==> (#[trigger] journals_of(
                families,
            )[i]).journal(),
        forall|i: int|
            0 <= i < others_of(families).len() ==> !(#[trigger] others_of(families)[i]).journal(),
    decreases families.len(),
{
    if families.len() > 0 {
        let front = families.drop_last();
        lemma_kinds(front);
        let journals = journals_of(families);
        assert forall|i: int| 0 <= i < journals.len() implies (#[trigger] journals[i]).journal() by {
            if i < journals_of(front).len() {
                assert(journals[i] == journals_of(front)[i]);
            }
        }
        let others = others_of(families);
        assert forall|i: int| 0 <= i < others.len() implies !(#[trigger] others[i]).journal() by {
            if i < others_of(front).len() {
                assert(others[i] == others_of(front)[i]);
            }
        }
    }
}

proof fn lemma_all_is_the_pass(
    store: Map<Seq<char>, Seq<(Seq<u8>, Seq<u8>)>>,
    families: Seq<Cf>,
    archive: Map<Seq<char>, Seq<(Seq<u8>, Seq<u8>)>>,
    full: bool,
)
    ensures
        after_all(store, starting(archive), to_do(families, full)) == after_pass(
            store,
            families,
            archive,
            full,
        ),
{
    let start = starting(archive);
    lemma_kinds(families);
    lemma_all_journals(store, start, journals_of(families));
    if full {
        lemma_all_in_turn(store, start, journals_of(families), others_of(families));
        lemma_all_others(store, after_journals(store, start, journals_of(families)), families);
    }
}

/// A pass begins on course.
pub proof fn law_a_pass_begins_on_course(families: Seq<Cf>, full: bool, w: World)
    ensures
        ({
            let (p, ask) = coming_to(to_do(families, full), 0, blank_report());
            on_course(starting(w.archive), p, ask, w)
        }),
{
    let todo = to_do(families, full);
    assert(todo.take(0) =~= Seq::<Cf>::empty());
    lemma_coming_to(starting(w.archive), todo, 0, blank_report(), w);
}

/// A pass on course that has nothing more to ask has done what a whole pass does: the archive, the
/// report and the refusal, if there is one, are those of [`after_pass`].
pub proof fn law_a_led_pass_is_the_pass(
    families: Seq<Cf>,
    archive: Map<Seq<char>, Seq<(Seq<u8>, Seq<u8>)>>,
    full: bool,
    p: PassState,
    ask: AskView,
    w: World,
)
    requires
        on_course(starting(archive), p, ask, w),
        p.todo == to_do(families, full),
        ask is Nothing,
    ensures
        p.stage is Through || p.stage is Refused,
        after_pass(w.store, families, archive, full) == (PassView {
            archive: w.archive,
            report: p.report,
            failed: match p.stage {
                StageView::Refused { error } => Some(error),
                _ => None,
            },
        }),
{
    lemma_all_is_the_pass(w.store, families, archive, full);
}

proof fn lemma_resumable_prefix(
    store: Map<Seq<char>, Seq<(Seq<u8>, Seq<u8>)>>,
    pass: PassView,
    journals: Seq<Cf>,
    n: int,
)
    requires
        resumable(store, pass, journals),
        0 <= n <= journals.len(),
    ensures
        resumable(store, pass, journals.take(n)),
    decreases journals.len(),
{
    if n == journals.len() {
        assert(journals.take(n) =~= journals);
    } else {
        lemma_resumable_prefix(store, pass, journals.drop_last(), n);
        assert(journals.drop_last().take(n) =~= journals.take(n));
    }
}

/// A pass on course never comes to a journal whose last possible index is archived already, where
/// every journal has an index to resume from.
pub(crate) proof fn lemma_tip_is_taken(
    families: Seq<Cf>,
    archive: Map<Seq<char>, Seq<(Seq<u8>, Seq<u8>)>>,
    full: bool,
    p: PassState,
    ask: AskView,
    w: World,
)
    requires
        on_course(starting(archive), p, ask, w),
        p.todo == to_do(families, full),
        p.stage is Tip,
        resumable(w.store, starting(archive), journals_of(families)),
    ensures
        takes(p, told(w, ask).0),
{
    let journals = journals_of(families);
    let start = starting(archive);
    lemma_kinds(families);
    let cf = p.todo[p.at];
    if p.at >= journals.len() {
        assert(cf == others_of(families)[p.at - journals.len()]);
    }
    assert(p.todo.take(p.at) =~= journals.take(p.at));
    assert forall|i: int| 0 <= i < journals.take(p.at).len() implies (
    #[trigger] journals.take(p.at)[i]).journal() by {
        assert(journals.take(p.at)[i] == journals[i]);
    }
    lemma_all_journals(w.store, start, journals.take(p.at));
    lemma_resumable_prefix(w.store, start, journals, p.at + 1);
    assert(journals.take(p.at + 1).drop_last() =~= journals.take(p.at));
    assert(journals.take(p.at + 1).last() == cf);
    assert(!at_last_index(w.archive, cf));
}

} // verus!
