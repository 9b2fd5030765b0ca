//! Reporting watermarks, the two cadences, and the dry run.

use hydrozoa_tools::archiver::config::{
    after_a_pass, default_full_interval_secs, default_tail_interval_secs, dry_run, family_line,
    full_pass_due, journal_line, secondary_name, survey_heading, worth_a_line, Next,
};
use hydrozoa_tools::archiver::counts::{FamilyCounts, NameCounts};
use hydrozoa_tools::archiver::pass::PassReport;
use hydrozoa_tools::archiver::watermark::{
    note_of, plan_report, watermark_url, Reply, ReplyNote, WatermarkReport, WatermarkResponse,
};
use hydrozoa_tools::store::cf::{Cf, PeerId};
use hydrozoa_tools::store::error::StoreError;
use hydrozoa_tools::store::head_store::HeadStore;
use hydrozoa_tools::store::table::{Family, Row, Table};
use std::collections::BTreeMap;

fn report() -> PassReport {
    let mut report = PassReport::new();
    report.watermarks.insert(Cf::Request(0), 4000);
    report.watermarks.insert(Cf::Block, 12);
    report.watermarks.insert(Cf::HardAck(PeerId::Head(1)), 3);
    report
}

#[test]
fn a_watermark_is_reported_per_family() {
    let body = WatermarkReport::from_pass(&report());
    assert!(!body.is_empty());
    assert_eq!(body.watermarks.get("Request:0"), Some(&4000));
    assert_eq!(body.watermarks.get("Block"), Some(&12));
    assert_eq!(body.watermarks.get("HardAck:3"), Some(&3));
    assert_eq!(body.watermarks.get("Stack"), None);
    assert_eq!(body.watermarks.entries().len(), 3);
    assert!(WatermarkReport::from_pass(&PassReport::new()).is_empty());
}

#[test]
fn the_report_goes_to_the_admin_api() {
    for base in ["http://127.0.0.1:8080", "http://127.0.0.1:8080/", "http://127.0.0.1:8080//"] {
        assert_eq!(
            watermark_url(base),
            "http://127.0.0.1:8080/api/admin/archive/watermark"
        );
    }
    assert_eq!(watermark_url("//"), "/api/admin/archive/watermark");
}

#[test]
fn nothing_is_sent_without_a_node_or_without_anything_to_say() {
    let url = "http://node".to_string();
    let user = "admin".to_string();
    let word = "word".to_string();
    assert!(plan_report(None, None, None, &report()).is_none());
    assert!(plan_report(Some(&url), None, None, &PassReport::new()).is_none());

    let post = plan_report(Some(&url), Some(&user), Some(&word), &report()).unwrap();
    assert_eq!(post.url, "http://node/api/admin/archive/watermark");
    assert_eq!(post.credentials, Some((user.clone(), word.clone())));
    assert_eq!(post.body.watermarks.get("Block"), Some(&12));

    let half = plan_report(Some(&url), Some(&user), None, &report()).unwrap();
    assert_eq!(half.credentials, None);
    let half = plan_report(Some(&url), None, Some(&word), &report()).unwrap();
    assert_eq!(half.credentials, None);
}

#[test]
fn a_reply_may_name_a_floor() {
    let with = |n: Option<u64>| {
        let mut floor = NameCounts::new();
        if let Some(n) = n {
            floor.insert("Block".into(), n);
        }
        Reply::Accepted {
            response: Some(WatermarkResponse {
                effective_floor: floor,
            }),
        }
    };
    assert_eq!(note_of(&with(Some(3))), ReplyNote::FloorAdopted);
    assert_eq!(note_of(&with(None)), ReplyNote::Reported);
    assert_eq!(
        note_of(&Reply::Accepted { response: None }),
        ReplyNote::Reported
    );
    assert_eq!(note_of(&Reply::Rejected), ReplyNote::NotReported);
    assert_eq!(note_of(&Reply::Unsent), ReplyNote::NotReported);
}

#[test]
fn counts_keep_one_number_per_family_in_order() {
    let mut counts = FamilyCounts::new();
    assert!(counts.is_empty());
    counts.insert(Cf::Request(1), 5);
    counts.insert(Cf::Block, 1);
    counts.insert(Cf::Request(1), 7);
    counts.insert(Cf::Meta, 2);
    assert_eq!(
        counts.entries(),
        &vec![(Cf::Block, 1), (Cf::Meta, 2), (Cf::Request(1), 7)]
    );
    assert_eq!(counts.len(), 3);
    assert_eq!(counts.sum(), 10);
    assert_eq!(counts.get(&Cf::Request(1)), Some(&7));
    assert_eq!(counts.get(&Cf::Stack), None);
    assert!(!counts.is_empty());
}

#[test]
fn a_name_keeps_the_last_number() {
    let mut counts = NameCounts::new();
    counts.insert("a".into(), 1);
    counts.insert("b".into(), 2);
    counts.insert("a".into(), 3);
    assert_eq!(counts.get("a"), Some(&3));
    assert_eq!(counts.get("b"), Some(&2));
    assert_eq!(counts.entries().len(), 2);
}

#[test]
fn names_stand_in_order() {
    let mut counts = NameCounts::new();
    let mut expected = BTreeMap::new();
    let names = ["Stack", "Block", "Request:10", "Request:2", "z", "é", "", "Block", "Z"];
    for (n, name) in (0u64..).zip(names) {
        counts.insert(name.into(), n);
        expected.insert(name.to_string(), n);
    }
    let listed: Vec<(String, u64)> = expected.into_iter().collect();
    assert_eq!(counts.entries(), &listed);
    assert_eq!(counts.get("Block"), Some(&7));
}

#[test]
fn full_passes_are_slower_than_tails() {
    assert_eq!(default_tail_interval_secs(), 5);
    assert_eq!(default_full_interval_secs(), 300);
    assert!(full_pass_due(false, None, 300));
    assert!(!full_pass_due(false, Some(299), 300));
    assert!(full_pass_due(false, Some(300), 300));
    assert!(full_pass_due(true, Some(0), 300));
    assert_eq!(after_a_pass(true, 5), Next::Exit);
    assert_eq!(after_a_pass(false, 5), Next::SleepSecs(5));
    assert!(worth_a_line(0, true));
    assert!(worth_a_line(1, false));
    assert!(!worth_a_line(0, false));
}

#[test]
fn a_reader_keeps_its_bookkeeping_to_itself() {
    assert_eq!(secondary_name("archive-secondary", 4021), "archive-secondary-4021");
    assert_eq!(secondary_name("", 0), "-0");
}

#[test]
fn a_dry_run_lists_every_family() {
    let family = |name: &str, rows: &[(&[u8], &[u8])]| {
        let mut table = Table::new();
        for (key, value) in rows {
            table.put(Row {
                key: key.to_vec(),
                value: value.to_vec(),
            });
        }
        Family {
            name: name.into(),
            table,
        }
    };
    let source = HeadStore::open(vec![
        family("Treasury", &[(b"a", b"1"), (b"b", b"2")]),
        family("Stack", &[]),
        family("Block", &[(&[0, 0, 0, 4], b"x"), (&[0, 0, 1, 0], b"y")]),
    ]);
    let (lines, failed) = dry_run(&source);
    assert!(failed.is_none());
    assert_eq!(
        lines,
        vec![
            survey_heading(),
            format!("{:<28} {:>12} {:>12}", "Block", 4, 256),
            format!("{:<28} {:>12} {:>12}", "Stack", "-", "-"),
            format!("{:<28} {:>12} {:>12}", "Treasury", "-", 2),
        ]
    );
    assert_eq!(
        survey_heading(),
        format!("{:<28} {:>12} {:>12}", "family", "floor", "tip")
    );
    assert_eq!(
        journal_line(Cf::Block, Some(1_234_567_890_123), None),
        format!("{:<28} {:>12} {:>12}", "Block", 1_234_567_890_123u64, "-")
    );
    assert_eq!(
        family_line(Cf::DepositDecisionIndex, 0),
        format!("{:<28} {:>12} {:>12}", "DepositDecisionIndex", "-", 0)
    );

    // What comes before a family that cannot be read is listed.
    let broken = HeadStore::open(vec![
        family("Block", &[]),
        family("Stack", &[(&[4], b"x")]),
        family("Treasury", &[]),
    ]);
    let (lines, failed) = dry_run(&broken);
    assert_eq!(
        lines,
        vec![survey_heading(), format!("{:<28} {:>12} {:>12}", "Block", "-", "-")]
    );
    assert!(matches!(
        failed,
        Some(StoreError::KeyWidth { cf: Cf::Stack, found: 1, expected: 4 })
    ));
}

#[test]
fn every_refusal_has_a_message() {
    let cases = [
        (
            StoreError::NotScannable { cf: Cf::Meta },
            "Meta is not a journal; it cannot be scanned in arrival order",
        ),
        (
            StoreError::NoIndexedEntries { cf: Cf::Meta },
            "Meta is not a journal; it has no indexed entries",
        ),
        (
            StoreError::NoTip { cf: Cf::Meta },
            "Meta is not a journal; it has no tip to resume from",
        ),
        (
            StoreError::MissingFromStore { cf: Cf::Request(3) },
            "Request:3 is not present in this store",
        ),
        (
            StoreError::MissingFromArchive { cf: Cf::Request(3) },
            "Request:3 is not present in this archive",
        ),
        (
            StoreError::NotAskedFor { name: "Request:3".into() },
            "Request:3 is present in this archive but not among the families to open",
        ),
    ];
    for (error, text) in cases {
        assert_eq!(error.message(), text);
    }
}
