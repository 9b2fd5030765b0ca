//! What the archiver is told, and when it does what.

use crate::store::cf::Cf;
use crate::store::error::StoreError;
use crate::store::head_store::{floor_of, stored_rows, texts, tip_of, HeadStore};
use crate::text::{
    decimal, decimal_text, left_aligned, push_decimal, push_left_aligned, push_right_aligned,
    right_aligned,
};
use vstd::prelude::*;

verus! {

/// The command line.
#[derive(Debug)]
pub struct Args {
    /// Config file(s), merged left to right on top of the built-in defaults.
    pub config: Vec<String>,
    /// Run a single pass and exit, instead of looping. The pass is a full one.
    pub once: bool,
    /// Report what a pass would copy, and copy nothing.
    pub dry_run: bool,
}

/// The configuration.
#[derive(Debug)]
pub struct Config {
    /// The node's store directory, opened read-only. The node keeps writing to it throughout and
    /// is never told this reader exists.
    pub store_path: String,
    /// Scratch directory for this process's reader. Must be writable, and must not be shared with
    /// another reader. The process id is appended for that reason.
    pub secondary_path: String,
    /// Where the archive lives.
    pub archive_path: String,
    /// Seconds between journal tails.
    pub tail_interval_secs: u64,
    /// Seconds between full passes, which also copy the non-journal families.
    ///
    /// Slower than the tail on purpose: those families have no resume point, so each pass rescans
    /// them whole and costs the same whether anything changed or not.
    pub full_interval_secs: u64,
    /// The node's admin API. Unset means archive but never report, which leaves the node retaining
    /// everything: the safe direction.
    pub node_url: Option<String>,
    pub admin_username: Option<String>,
    pub admin_password: Option<String>,
}

pub fn default_tail_interval_secs() -> (r: u64)
    ensures
        r == 5,
{
    5
}

pub fn default_full_interval_secs() -> (r: u64)
    ensures
        r == 300,
{
    300
}

/// The directory name of this process's reader: its process id is appended, so that two readers
/// of one store do not share their bookkeeping.
pub fn secondary_name(name: &str, pid: u32) -> (r: String)
    ensures
        r@ == name@ + "-"@ + decimal(pid as nat),
{
    let mut out = name.to_owned();
    out.append("-");
    push_decimal(&mut out, pid as u64);
    out
}

/// Whether a full pass is due.
pub open spec fn due(once: bool, secs_since_full: Option<u64>, full_interval_secs: u64) -> bool {
    secs_since_full is Some && secs_since_full->0 < full_interval_secs ==> once
}

/// Whether the next pass is a full one: always where a single pass was asked for, at first, and
/// once the interval has gone by since the last full pass that succeeded.
pub fn full_pass_due(once: bool, secs_since_full: Option<u64>, full_interval_secs: u64) -> (r: bool)
    ensures
        r == (once || match secs_since_full {
            None => true,
            Some(secs) => secs >= full_interval_secs,
        }),
        r == due(once, secs_since_full, full_interval_secs),
{
    once || match secs_since_full {
        None => true,
        Some(secs) => secs >= full_interval_secs,
    }
}

/// What the archiver does next, once a pass has ended.
#[derive(Clone, Copy, PartialEq, Eq, Debug, Structural)]
pub enum Next {
    Exit,
    SleepSecs(u64),
}

/// A failed pass is never fatal: a retry re-copies from the archive's own tip, and taking the
/// archiver down is what turns a transient read error into an unbounded store.
pub fn after_a_pass(once: bool, tail_interval_secs: u64) -> (r: Next)
    ensures
        r == (if once {
            Next::Exit
        } else {
            Next::SleepSecs(tail_interval_secs)
        }),
        r is Exit <==> once,
        r matches Next::SleepSecs(secs) ==> secs == tail_interval_secs,
{
    if once {
        Next::Exit
    } else {
        Next::SleepSecs(tail_interval_secs)
    }
}

/// Whether a pass that succeeded is worth a line: it copied something, or it was a full one.
pub fn worth_a_line(total_copied: u64, full: bool) -> (r: bool)
    ensures
        r == (total_copied > 0 || full),
        !r <==> total_copied == 0 && !full,
{
    total_copied > 0 || full
}

/// One line of what a pass would copy: a name and two columns.
pub open spec fn survey_line(name: Seq<char>, floor: Seq<char>, tip: Seq<char>) -> Seq<char> {
    left_aligned(name, 28) + " "@ + right_aligned(floor, 12) + " "@ + right_aligned(tip, 12)
}

/// An index, or a dash where there is none.
pub open spec fn index_or_dash(index: Option<u64>) -> Seq<char> {
    match index {
        Some(n) => decimal(n as nat),
        None => "-"@,
    }
}

fn line_of(name: &str, floor: &str, tip: &str) -> (r: String)
    ensures
        r@ == survey_line(name@, floor@, tip@),
{
    let mut out = String::new();
    push_left_aligned(&mut out, name, 28);
    out.append(" ");
    push_right_aligned(&mut out, floor, 12);
    out.append(" ");
    push_right_aligned(&mut out, tip, 12);
    assert(Seq::<char>::empty() + left_aligned(name@, 28) =~= left_aligned(name@, 28));
    out
}

fn dash_text(index: Option<u64>) -> (r: String)
    ensures
        r@ == index_or_dash(index),
{
    match index {
        Some(n) => decimal_text(n),
        None => "-".to_owned(),
    }
}

/// The columns' headings.
pub fn survey_heading() -> (r: String)
    ensures
        r@ == survey_line("family"@, "floor"@, "tip"@),
{
    line_of("family", "floor", "tip")
}

/// A journal's line: the lowest and the highest index that the store holds of it.
pub fn journal_line(cf: Cf, floor: Option<u64>, tip: Option<u64>) -> (r: String)
    ensures
        r@ == survey_line(cf.name_chars(), index_or_dash(floor), index_or_dash(tip)),
{
    let name = cf.name();
    let floor = dash_text(floor);
    let tip = dash_text(tip);
    line_of(name.as_str(), floor.as_str(), tip.as_str())
}

/// Another family's line: how many rows the store holds of it.
pub fn family_line(cf: Cf, count: u64) -> (r: String)
    ensures
        r@ == survey_line(cf.name_chars(), "-"@, decimal(count as nat)),
{
    let name = cf.name();
    let count = decimal_text(count);
    line_of(name.as_str(), "-", count.as_str())
}

/// The line of a family, or why its store refuses it.
pub open spec fn surveyed(
    store: Map<Seq<char>, Seq<(Seq<u8>, Seq<u8>)>>,
    cf: Cf,
) -> Result<Seq<char>, StoreError> {
    match stored_rows(store, cf) {
        Err(e) => Err(e),
        Ok(rows) => if cf.journal() {
            match (floor_of(cf, rows), tip_of(cf, rows)) {
                (Err(e), _) => Err(e),
                (_, Err(e)) => Err(e),
                (Ok(floor), Ok(tip)) => Ok(
                    survey_line(cf.name_chars(), index_or_dash(floor), index_or_dash(tip)),
                ),
            }
        } else {
            Ok(survey_line(cf.name_chars(), "-"@, decimal(rows.len())))
        },
    }
}

/// What a dry run prints over families, and the refusal that ends it, if one does: the heading, and a
/// line per family up to one that cannot be read.
pub open spec fn survey_of(
    store: Map<Seq<char>, Seq<(Seq<u8>, Seq<u8>)>>,
    families: Seq<Cf>,
) -> (Seq<Seq<char>>, Option<StoreError>)
    decreases families.len(),
{
    if families.len() == 0 {
        (seq![survey_line("family"@, "floor"@, "tip"@)], None)
    } else {
        let (lines, failed) = survey_of(store, families.drop_last());
        match failed {
            Some(e) => (lines, Some(e)),
            None => match surveyed(store, families.last()) {
                Ok(line) => (lines.push(line), None),
                Err(e) => (lines, Some(e)),
            },
        }
    }
}

proof fn lemma_survey_ends(
    store: Map<Seq<char>, Seq<(Seq<u8>, Seq<u8>)>>,
    families: Seq<Cf>,
    n: int,
)
    requires
        0 <= n <= families.len(),
        survey_of(store, families.take(n)).1 is Some,
    ensures
        survey_of(store, families) == survey_of(store, families.take(n)),
    decreases families.len(),
{
    if n == families.len() {
        assert(families.take(n) =~= families);
    } else {
        assert(families.drop_last().take(n) =~= families.take(n));
        lemma_survey_ends(store, families.drop_last(), n);
    }
}

/// Report what a pass would copy, touching nothing: a heading, then a line per family, in the
/// declared order. A family that cannot be read ends it, and the lines before it stand.
pub fn dry_run(source: &HeadStore) -> (r: (Vec<String>, Option<StoreError>))
    ensures
        (texts(r.0@), r.1) == survey_of(source@, source.known()),
{
    let families = source.families();
    let mut lines: Vec<String> = Vec::new();
    lines.push(survey_heading());
    let mut i: usize = 0;
    assert(families@.take(0) =~= Seq::<Cf>::empty());
    assert(texts(lines@) =~= seq![survey_line("family"@, "floor"@, "tip"@)]);
    while i < families.len()
        invariant
            i <= families@.len(),
            families@ == source.known(),
            (texts(lines@), None::<StoreError>) == survey_of(source@, families@.take(i as int)),
        decreases families@.len() - i,
    {
        assert(families@.take(i + 1).drop_last() =~= families@.take(i as int));
        match survey(source, families[i]) {
            Ok(line) => {
                let ghost before = texts(lines@);
                let ghost added = line@;
                lines.push(line);
                assert(texts(lines@) =~= before.push(added));
            },
            Err(e) => {
                proof {
                    lemma_survey_ends(source@, families@, i + 1);
                }
                return (lines, Some(e));
            },
        }
        i = i + 1;
    }
    assert(families@.take(i as int) =~= families@);
    (lines, None)
}

fn survey(source: &HeadStore, cf: Cf) -> (r: Result<String, StoreError>)
    ensures
        match r {
            Ok(line) => surveyed(source@, cf) == Ok::<Seq<char>, StoreError>(line@),
            Err(e) => surveyed(source@, cf) == Err::<Seq<char>, StoreError>(e),
        },
{
    if cf.is_journal() {
        let floor = match source.floor(cf) {
            Ok(floor) => floor,
            Err(e) => {
                return Err(e);
            },
        };
        match source.tip(cf) {
            Ok(tip) => Ok(journal_line(cf, floor, tip)),
            Err(e) => Err(e),
        }
    } else {
        match source.scan_raw(cf) {
            Ok(rows) => Ok(family_line(cf, rows.len() as u64)),
            Err(e) => Err(e),
        }
    }
}

} // verus!
