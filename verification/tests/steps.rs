//! A pass led step by step over maps, which stand for a store and an archive on disk.

use hydrozoa_tools::archiver::archive::ArchiveStore;
use hydrozoa_tools::archiver::pass::{self, Gap, PassReport, BATCH};
use hydrozoa_tools::archiver::steps::{Answer, Ask, Pass};
use hydrozoa_tools::store::cf::Cf;
use hydrozoa_tools::store::error::StoreError;
use hydrozoa_tools::store::head_store::HeadStore;
use hydrozoa_tools::store::journal::{encode_key, ArrivalStamp};
use hydrozoa_tools::store::meta::{StoreIdentity, StoreMeta};
use hydrozoa_tools::store::table::{Family, Row, Table};
use std::collections::BTreeMap;

type Rows = BTreeMap<Vec<u8>, Vec<u8>>;
type Store = BTreeMap<String, Rows>;

fn key(cf: Cf, index: u64) -> Vec<u8> {
    encode_key(cf, index).unwrap()
}

fn framed(n: u64) -> Vec<u8> {
    let stamp = ArrivalStamp {
        generation: 1,
        monotonic_nanos: n,
    };
    let mut value = stamp.to_bytes().to_vec();
    value.extend(format!("payload {n}").into_bytes());
    value
}

fn journal(cf: Cf, from: u64, to: u64) -> (String, Rows) {
    (cf.name(), (from..to).map(|i| (key(cf, i), framed(i))).collect())
}

/// Do what a pass asks for, and take note of it.
fn lead(store: &Store, archive: &mut Store, families: &Vec<Cf>, full: bool) -> (Vec<String>, Result<PassReport, StoreError>) {
    let mut log = Vec::new();
    let mut rest: Vec<(Vec<u8>, Vec<u8>)> = Vec::new();
    let (mut pass, mut ask) = Pass::begin(families, full);
    loop {
        let answer = match ask {
            Ask::LastArchived { cf } => {
                log.push(format!("tip {}", cf.name()));
                match archive.get(&cf.name()) {
                    Some(rows) => Answer::Key(rows.keys().next_back().cloned()),
                    None => Answer::NoFamily,
                }
            }
            Ask::FirstStored { cf } => {
                log.push(format!("floor {}", cf.name()));
                match store.get(&cf.name()) {
                    Some(rows) => Answer::Key(rows.keys().next().cloned()),
                    None => Answer::NoFamily,
                }
            }
            Ask::Seek { cf, from } => {
                log.push(format!("walk {} from {from:?}", cf.name()));
                match store.get(&cf.name()) {
                    Some(rows) => {
                        let from = from.unwrap_or_default();
                        rest = rows.range(from..).map(|(k, v)| (k.clone(), v.clone())).collect();
                        rest.reverse();
                        Answer::Done
                    }
                    None => Answer::NoFamily,
                }
            }
            Ask::NextRow => Answer::Next(rest.pop().map(|(key, value)| Row { key, value })),
            Ask::Commit { cf, rows } => {
                log.push(format!("commit {} {}", cf.name(), rows.len()));
                match archive.get_mut(&cf.name()) {
                    Some(held) => {
                        held.extend(rows.into_iter().map(|r| (r.key, r.value)));
                        Answer::Done
                    }
                    None => Answer::NoFamily,
                }
            }
            Ask::Nothing => break,
        };
        assert!(pass.can_take(&answer));
        (pass, ask) = pass.answer(answer);
    }
    (log, pass.outcome())
}

fn empty(families: &[Cf]) -> Store {
    families.iter().map(|c| (c.name(), Rows::new())).collect()
}

#[test]
fn journals_are_asked_for_first_and_the_others_in_a_full_pass() {
    let families = vec![Cf::Block, Cf::Treasury, Cf::Request(0)];
    let mut store: Store = [journal(Cf::Block, 3, 5), journal(Cf::Request(0), 0, 0)].into();
    store.insert("Treasury".into(), [(b"k".to_vec(), b"v".to_vec())].into());

    let mut archive = empty(&families);
    let (log, report) = lead(&store, &mut archive, &families, false);
    assert_eq!(
        log,
        [
            "tip Block",
            "floor Block",
            "walk Block from Some([0, 0, 0, 3])",
            "commit Block 2",
            "tip Request:0",
            "floor Request:0",
            "walk Request:0 from Some([0, 0, 0, 0, 0, 0, 0, 0])",
        ]
    );
    let report = report.unwrap();
    assert_eq!(report.copied.entries(), &vec![(Cf::Block, 2)]);
    assert_eq!(report.watermarks.entries(), &vec![(Cf::Block, 4)]);
    assert!(report.gaps.is_empty());
    assert!(archive["Treasury"].is_empty());

    let (log, report) = lead(&store, &mut archive, &families, true);
    assert_eq!(
        log,
        [
            "tip Block",
            "floor Block",
            "walk Block from Some([0, 0, 0, 5])",
            "tip Request:0",
            "floor Request:0",
            "walk Request:0 from Some([0, 0, 0, 0, 0, 0, 0, 0])",
            "walk Treasury from None",
            "commit Treasury 1",
        ]
    );
    let report = report.unwrap();
    assert_eq!(report.copied.entries(), &vec![(Cf::Treasury, 1)]);
    assert_eq!(report.watermarks.entries(), &vec![(Cf::Block, 4)]);
    assert_eq!(archive, store);
}

#[test]
fn a_full_batch_is_committed_before_more_is_read() {
    let families = vec![Cf::Block];
    let n = 2 * BATCH as u64;
    let store: Store = [journal(Cf::Block, 0, n + 1)].into();
    let mut archive = empty(&families);
    let (log, report) = lead(&store, &mut archive, &families, false);
    assert_eq!(log[3..], ["commit Block 1024", "commit Block 1024", "commit Block 1"]);
    assert_eq!(report.unwrap().copied.get(&Cf::Block), Some(&(n + 1)));
    assert_eq!(archive, store);

    // A whole number of batches leaves nothing for a last one.
    let store: Store = [journal(Cf::Block, 0, n)].into();
    let mut archive = empty(&families);
    let (log, _) = lead(&store, &mut archive, &families, false);
    assert_eq!(log[3..], ["commit Block 1024", "commit Block 1024"]);
}

#[test]
fn a_refused_pass_reports_its_gap_and_no_progress() {
    let mut row = 0;
    let (mut pass, mut ask) = Pass::begin(&vec![Cf::Block], true);
    loop {
        let answer = match ask {
            Ask::LastArchived { .. } => Answer::Key(Some(key(Cf::Block, 1))),
            Ask::FirstStored { .. } => Answer::Key(Some(key(Cf::Block, 7))),
            Ask::Seek { .. } => Answer::Done,
            Ask::NextRow => {
                row += 1;
                Answer::Next(Some(Row {
                    key: key(Cf::Block, 6 + row),
                    value: if row < 3 { framed(row) } else { b"short".to_vec() },
                }))
            }
            Ask::Commit { .. } => panic!("no batch is full"),
            Ask::Nothing => break,
        };
        (pass, ask) = pass.answer(answer);
    }
    let gap = Gap {
        cf: Cf::Block,
        expected_from: 2,
        node_floor: 7,
    };
    assert_eq!(pass.report().gaps, [gap]);
    assert!(pass.report().watermarks.is_empty());
    assert!(pass.report().copied.is_empty());
    assert!(matches!(
        pass.outcome(),
        Err(StoreError::UnreadableEntry { cf: Cf::Block, index: 9, found: 5 })
    ));
}

#[test]
fn a_missing_family_ends_a_pass() {
    let families = vec![Cf::Block, Cf::Treasury];
    let whole: Store = [journal(Cf::Block, 0, 2), ("Treasury".into(), [(vec![1], vec![2])].into())].into();
    let without = |store: &Store, name: &str| {
        let mut store = store.clone();
        store.remove(name);
        store
    };
    let refusal = |store: &Store, mut archive: Store| {
        let (log, outcome) = lead(store, &mut archive, &families, true);
        (log.last().unwrap().clone(), outcome.err().unwrap().message())
    };
    let fresh = empty(&families);
    assert_eq!(
        refusal(&whole, without(&fresh, "Block")),
        ("tip Block".into(), "Block is not present in this archive".into())
    );
    assert_eq!(
        refusal(&without(&whole, "Block"), fresh.clone()),
        ("floor Block".into(), "Block is not present in this store".into())
    );
    assert_eq!(
        refusal(&without(&whole, "Treasury"), fresh.clone()),
        ("walk Treasury from None".into(), "Treasury is not present in this store".into())
    );
    assert_eq!(
        refusal(&whole, without(&fresh, "Treasury")),
        ("commit Treasury 1".into(), "Treasury is not present in this archive".into())
    );
    let mut odd = fresh.clone();
    odd.insert("Block".into(), [(vec![1], framed(0))].into());
    assert_eq!(
        refusal(&whole, odd),
        ("tip Block".into(), "Block key is 1 bytes; expected 4".into())
    );
    let mut full = fresh;
    full.insert("Block".into(), [(key(Cf::Block, u32::MAX as u64), framed(0))].into());
    assert_eq!(
        refusal(&whole, full),
        ("floor Block".into(), "Block counts in u32; 4294967296 does not fit".into())
    );
}

#[test]
fn only_an_answer_to_what_was_asked_is_taken() {
    let (pass, _) = Pass::begin(&vec![Cf::Request(0), Cf::Treasury], true);
    assert!(pass.can_take(&Answer::NoFamily));
    assert!(pass.can_take(&Answer::Key(None)));
    assert!(pass.can_take(&Answer::Key(Some(key(Cf::Request(0), u64::MAX - 1)))));
    assert!(pass.can_take(&Answer::Key(Some(vec![1]))));
    // There is no index past the last one.
    assert!(!pass.can_take(&Answer::Key(Some(key(Cf::Request(0), u64::MAX)))));
    assert!(!pass.can_take(&Answer::Done));
    assert!(!pass.can_take(&Answer::Next(None)));

    let (pass, _) = pass.answer(Answer::Key(None));
    assert!(pass.can_take(&Answer::Key(Some(key(Cf::Request(0), u64::MAX)))));
    assert!(!pass.can_take(&Answer::Done));
    let (pass, _) = pass.answer(Answer::Key(None));
    assert!(pass.can_take(&Answer::Done) && pass.can_take(&Answer::NoFamily));
    assert!(!pass.can_take(&Answer::Next(None)));
    let (pass, _) = pass.answer(Answer::Done);
    assert!(pass.can_take(&Answer::Next(None)));
    assert!(!pass.can_take(&Answer::NoFamily) && !pass.can_take(&Answer::Key(None)));
    let (pass, ask) = pass.answer(Answer::Next(None));
    assert!(matches!(ask, Ask::Seek { cf: Cf::Treasury, from: None }));
    let (pass, ask) = pass.answer(Answer::NoFamily);
    assert!(matches!(ask, Ask::Nothing));
    assert!(!pass.can_take(&Answer::Done));
    assert!(pass.outcome().is_err());

    let (pass, ask) = Pass::begin(&Vec::new(), true);
    assert!(matches!(ask, Ask::Nothing));
    assert!(pass.outcome().unwrap().copied.is_empty());
}

fn found(store: &Store) -> Vec<Family> {
    store
        .iter()
        .map(|(name, rows)| {
            let mut table = Table::new();
            for (key, value) in rows {
                table.put(Row {
                    key: key.clone(),
                    value: value.clone(),
                });
            }
            Family {
                name: name.clone(),
                table,
            }
        })
        .collect()
}

/// Led over maps, a pass does what it does over the tables in memory.
#[test]
fn a_led_pass_is_the_pass() {
    let mut store: Store = [
        journal(Cf::Block, 5, 2000),
        journal(Cf::Request(0), 0, 3),
        journal(Cf::Request(1), 9, 12),
        ("Treasury".into(), [(b"a".to_vec(), b"1".to_vec()), (b"b".to_vec(), b"2".to_vec())].into()),
        ("Meta".into(), Rows::new()),
    ]
    .into();
    let identity = StoreIdentity {
        head_params_hash: "h".into(),
        head_id: "i".into(),
        head_address: "a".into(),
        own_peer_id: hydrozoa_tools::store::cf::PeerId::Head(1),
    };
    let meta = StoreMeta {
        version: 3,
        identity: Some(identity),
    };
    let source = HeadStore::open(found(&store));
    let mut archive = ArchiveStore::open(Vec::new(), source.families(), &meta).unwrap();
    let mut maps = empty(source.families());
    for row in archive.rows(Cf::Meta).unwrap() {
        maps.get_mut("Meta").unwrap().insert(row.key.clone(), row.value.clone());
    }

    for (round, full) in [true, false, true].into_iter().enumerate() {
        if round > 0 {
            // The node goes on, and trims one journal past what was copied.
            store.get_mut("Block").unwrap().extend(journal(Cf::Block, 2000, 3100).1);
            store.insert("Request:1".into(), journal(Cf::Request(1), 20, 22).1);
            store.get_mut("Treasury").unwrap().insert(b"b".to_vec(), vec![round as u8]);
        }
        let source = HeadStore::open(found(&store));
        let report = pass::run(&source, &mut archive, full).unwrap();
        let (_, led) = lead(&store, &mut maps, source.families(), full);
        let led = led.unwrap();
        assert_eq!(led.copied.entries(), report.copied.entries());
        assert_eq!(led.watermarks.entries(), report.watermarks.entries());
        assert_eq!(led.gaps, report.gaps);
        assert_eq!(led.gaps.len(), usize::from(round == 1));
        for (name, rows) in &maps {
            let cf = Cf::parse(name).unwrap();
            let held: Rows = archive
                .rows(cf)
                .unwrap()
                .iter()
                .map(|r| (r.key.clone(), r.value.clone()))
                .collect();
            assert_eq!(&held, rows, "{name}");
        }
    }
}
