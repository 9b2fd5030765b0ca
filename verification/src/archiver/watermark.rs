//! Telling the node how far the archive durably reached.
//!
//! This is the only thing the archiver ever says to hydrozoa, and the only reason the two
//! processes are coupled at all. Reading needs no cooperation; this exists purely so the node may
//! delete.

use crate::archiver::counts::{strictly_ordered, NameCounts};
use crate::archiver::pass::PassReport;
use crate::store::cf::{law_names_are_distinct, Cf};
use crate::text::{trim_final_slashes, without_final_slashes};
use vstd::prelude::*;

verus! {

/// The number each family's name has, once the families' numbers have been entered by name.
pub open spec fn named(entries: Seq<(Cf, u64)>) -> Map<Seq<char>, u64>
    decreases entries.len(),
{
    if entries.len() == 0 {
        Map::empty()
    } else {
        named(entries.drop_last()).insert(entries.last().0.name_chars(), entries.last().1)
    }
}

/// The report body: the highest durably archived index, per column family.
///
/// Per-family rather than one number, because the journals are independent streams archived at
/// independent rates: `Request:0` can be thousands of entries ahead of `HardAck:3`, and a scalar
/// could only ever carry the minimum, holding retention back to the slowest lane.
pub struct WatermarkReport {
    /// Column-family name to highest index durably in the archive.
    pub watermarks: NameCounts,
}

/// What the node made of it.
pub struct WatermarkResponse {
    /// The floor the node actually adopted per family, after taking the minimum with what
    /// consensus still needs. Lets the archiver see whether it is the binding constraint or the
    /// mesh is: without it, an archiver that is far ahead looks identical to one that is behind.
    pub effective_floor: NameCounts,
}

impl WatermarkReport {
    pub fn from_pass(report: &PassReport) -> (r: WatermarkReport)
        ensures
            r.watermarks@ == named(report.watermarks.listed()),
    {
        let entries = report.watermarks.entries();
        let mut watermarks = NameCounts::new();
        let mut i: usize = 0;
        assert(entries@.take(0) =~= Seq::<(Cf, u64)>::empty());
        while i < entries.len()
            invariant
                i <= entries@.len(),
                watermarks@ == named(entries@.take(i as int)),
            decreases entries@.len() - i,
        {
            let (cf, index) = entries[i];
            assert(entries@.take(i + 1).drop_last() =~= entries@.take(i as int));
            watermarks.insert(cf.name(), index);
            i = i + 1;
        }
        assert(entries@.take(i as int) =~= entries@);
        WatermarkReport { watermarks }
    }

    pub fn is_empty(&self) -> (r: bool)
        ensures
            r == (self.watermarks@ == Map::<Seq<char>, u64>::empty()),
    {
        self.watermarks.is_empty()
    }
}

/// What is to be sent to the node, and where.
pub struct Post {
    pub url: String,
    pub credentials: Option<(String, String)>,
    pub body: WatermarkReport,
}

/// The address the report is posted to.
pub open spec fn watermark_address(node_url: Seq<char>) -> Seq<char> {
    without_final_slashes(node_url) + "/api/admin/archive/watermark"@
}

/// The address the report is posted to.
pub fn watermark_url(node_url: &str) -> (r: String)
    ensures
        r@ == watermark_address(node_url@),
{
    let mut url = trim_final_slashes(node_url).to_owned();
    url.append("/api/admin/archive/watermark");
    url
}

proof fn lemma_named_empty(entries: Seq<(Cf, u64)>)
    ensures
        named(entries) == Map::<Seq<char>, u64>::empty() <==> entries.len() == 0,
{
    if entries.len() > 0 {
        assert(named(entries).dom().contains(entries.last().0.name_chars()));
    }
}

/// What to send after a pass: nothing where no node is configured or there is nothing to say.
/// Credentials go along only where both the name and the password are configured.
pub fn plan_report(
    node_url: Option<&String>,
    username: Option<&String>,
    password: Option<&String>,
    report: &PassReport,
) -> (r: Option<Post>)
    ensures
        r is Some <==> node_url is Some && named(report.watermarks.listed()) != Map::<
            Seq<char>,
            u64,
        >::empty(),
        r matches Some(post) ==> {
            &&& post.url@ == watermark_address(node_url->0@)
            &&& post.body.watermarks@ == named(report.watermarks.listed())
            &&& match post.credentials {
                Some((user, pass)) => {
                    &&& username matches Some(u) && user@ == u@
                    &&& password matches Some(p) && pass@ == p@
                },
                None => username is None || password is None,
            }
        },
        r is None <==> node_url is None || report.watermarks.listed().len() == 0,
        r matches Some(post) ==> (post.credentials is Some <==> username is Some && password
            is Some),
        r matches Some(post) ==> (post.credentials matches Some(pair) ==> pair.0@ == username->0@
            && pair.1@ == password->0@),
{
    let node_url = match node_url {
        Some(url) => url,
        None => {
            return None;
        },
    };
    let body = WatermarkReport::from_pass(report);
    proof {
        lemma_named_empty(report.watermarks.listed());
    }
    if body.is_empty() {
        return None;
    }
    let credentials = match (username, password) {
        (Some(user), Some(pass)) => Some((user.clone(), pass.clone())),
        _ => None,
    };
    Some(Post { url: watermark_url(node_url.as_str()), credentials, body })
}

/// The node's answer to a report, as far as it could be read.
pub enum Reply {
    /// The request did not get through.
    Unsent,
    /// The node answered with a status that is no success.
    Rejected,
    /// The node accepted the report. A node that answers with no body has told nothing about the
    /// floor it adopted, which is not an error: the archiver's job is done either way.
    Accepted { response: Option<WatermarkResponse> },
}

/// What a reply means to an operator.
#[derive(Clone, Copy, PartialEq, Eq, Debug, Structural)]
pub enum ReplyNote {
    /// The node adopted a retention floor.
    FloorAdopted,
    /// The report went through, with nothing said of a floor.
    Reported,
    /// The node will retain more. Never fatal: the archive is already durable.
    NotReported,
}

/// What a reply means: that the node adopted a floor where it names one for any family.
pub fn note_of(reply: &Reply) -> (r: ReplyNote)
    ensures
        r == (match reply {
            Reply::Accepted { response: Some(response) } => if response.effective_floor@ != Map::<
                Seq<char>,
                u64,
            >::empty() {
                ReplyNote::FloorAdopted
            } else {
                ReplyNote::Reported
            },
            Reply::Accepted { response: None } => ReplyNote::Reported,
            _ => ReplyNote::NotReported,
        }),
        r == ReplyNote::NotReported <==> !(reply is Accepted),
        r == ReplyNote::FloorAdopted <==> (reply matches Reply::Accepted { response: Some(response) }
            && response.effective_floor@ != Map::<Seq<char>, u64>::empty()),
{
    match reply {
        Reply::Accepted { response: Some(response) } => if response.effective_floor.is_empty() {
            ReplyNote::Reported
        } else {
            ReplyNote::FloorAdopted
        },
        Reply::Accepted { response: None } => ReplyNote::Reported,
        _ => ReplyNote::NotReported,
    }
}

/// Every family with a watermark is reported under its own name with its own number: no two
/// families share a line, so no lane is held back to another's.
pub proof fn law_report_is_per_family(entries: Seq<(Cf, u64)>, i: int)
    requires
        strictly_ordered(entries),
        forall|k: int| 0 <= k < entries.len() ==> (#[trigger] entries[k]).0.nameable(),
        0 <= i < entries.len(),
    ensures
        named(entries).dom().contains(entries[i].0.name_chars()),
        named(entries)[entries[i].0.name_chars()] == entries[i].1,
    decreases entries.len(),
{
    let front = entries.drop_last();
    if i < front.len() {
        assert forall|j: int, k: int| 0 <= j < k < front.len() implies (
        #[trigger] front[j]).0.position() < (#[trigger] front[k]).0.position() by {
            assert(front[j] == entries[j] && front[k] == entries[k]);
        }
        assert forall|k: int| 0 <= k < front.len() implies (#[trigger] front[k]).0.nameable() by {
            assert(front[k] == entries[k]);
        }
        law_report_is_per_family(front, i);
        let last = entries[entries.len() - 1];
        assert(entries[i].0.position() < last.0.position());
        if last.0.name_chars() == entries[i].0.name_chars() {
            law_names_are_distinct(entries[i].0, last.0);
        }
    }
}

} // verus!
