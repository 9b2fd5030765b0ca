//! End-to-end: build a store shaped like hydrozoa's, archive it, and check what came out.

use hydrozoa_tools::archiver::archive::{
    check_stamp, identity_rows, rows_to_stamp, ArchiveStore, Stamp,
};
use hydrozoa_tools::archiver::pass::{self, FamilyCopy, Gap, JournalCopy, PassReport, BATCH};
use hydrozoa_tools::store::cf::{Cf, PeerId, FIXED};
use hydrozoa_tools::store::error::StoreError;
use hydrozoa_tools::store::head_store::HeadStore;
use hydrozoa_tools::store::journal::{self, ArrivalStamp};
use hydrozoa_tools::store::meta::{self, StoreIdentity, StoreMeta};
use hydrozoa_tools::store::table::{Family, Row, Table};

/// The families a small two-peer head would open.
fn families() -> Vec<Cf> {
    let mut v = FIXED.to_vec();
    v.extend([
        Cf::Request(0),
        Cf::Request(1),
        Cf::SoftAck(0),
        Cf::HardAck(PeerId::Head(0)),
        Cf::HardAck(PeerId::Coil(3)),
        Cf::HubHardAck(0),
    ]);
    v.sort();
    v
}

/// A node's store: rows by family name.
struct Node {
    content: Vec<(String, Vec<(Vec<u8>, Vec<u8>)>)>,
}

impl Node {
    fn create() -> Node {
        let mut names: Vec<String> = families().iter().map(|c| c.name()).collect();
        names.push("default".into());
        let mut node = Node {
            content: names.into_iter().map(|n| (n, Vec::new())).collect(),
        };
        node.stamp_identity();
        node
    }

    /// The identity stamp hydrozoa writes on a fresh store.
    fn stamp_identity(&mut self) {
        self.put_plain(Cf::Meta, meta::VERSION_KEY.as_bytes(), &3u32.to_be_bytes());
        self.put_plain(Cf::Meta, meta::HEAD_PARAMS_HASH_KEY.as_bytes(), b"deadbeef");
        self.put_plain(Cf::Meta, meta::HEAD_ID_KEY.as_bytes(), b"cafe01");
        self.put_plain(Cf::Meta, meta::HEAD_ADDRESS_KEY.as_bytes(), b"addr_test1qxyz");
        // Head peer 1 -> wire int 3.
        self.put_plain(Cf::Meta, meta::OWN_PEER_ID_KEY.as_bytes(), &3u32.to_be_bytes());
    }

    fn rows(&mut self, cf: Cf) -> &mut Vec<(Vec<u8>, Vec<u8>)> {
        let name = cf.name();
        &mut self.content.iter_mut().find(|(n, _)| *n == name).unwrap().1
    }

    /// Append one journal entry, framed the way hydrozoa frames them.
    fn append(&mut self, cf: Cf, index: u64, generation: u32, nanos: u64, payload: &[u8]) {
        let stamp = ArrivalStamp {
            generation,
            monotonic_nanos: nanos,
        };
        let mut framed = stamp.to_bytes().to_vec();
        framed.extend_from_slice(payload);
        let key = journal::encode_key(cf, index).unwrap();
        self.put_plain(cf, &key, &framed);
    }

    /// Write into a family as it stands.
    fn put_plain(&mut self, cf: Cf, key: &[u8], value: &[u8]) {
        let rows = self.rows(cf);
        rows.retain(|(k, _)| k != key);
        rows.push((key.to_vec(), value.to_vec()));
    }

    /// Delete a journal range, as retention will.
    fn trim(&mut self, cf: Cf, below: u64) {
        for i in 0..below {
            let key = journal::encode_key(cf, i).unwrap();
            self.rows(cf).retain(|(k, _)| *k != key);
        }
    }

    /// What a reader that has just caught up sees.
    fn open_reader(&self) -> HeadStore {
        let found = self
            .content
            .iter()
            .map(|(name, rows)| Family {
                name: name.clone(),
                table: table(rows),
            })
            .collect();
        HeadStore::open(found)
    }
}

fn table(rows: &[(Vec<u8>, Vec<u8>)]) -> Table {
    let mut table = Table::new();
    for (key, value) in rows {
        table.put(Row {
            key: key.clone(),
            value: value.clone(),
        });
    }
    table
}

fn pairs(rows: &[Row]) -> Vec<(Vec<u8>, Vec<u8>)> {
    rows.iter()
        .map(|r| (r.key.clone(), r.value.clone()))
        .collect()
}

/// Read a family straight out of the archive, for comparison against the node.
fn archive_dump(archive: &ArchiveStore, cf: Cf) -> Vec<(Vec<u8>, Vec<u8>)> {
    pairs(archive.rows(cf).unwrap())
}

/// The archive's families, as they would be found on disk.
fn on_disk(archive: &ArchiveStore) -> Vec<Family> {
    families()
        .into_iter()
        .map(|cf| Family {
            name: cf.name(),
            table: table(&archive_dump(archive, cf)),
        })
        .collect()
}

fn fresh_archive(source: &HeadStore) -> ArchiveStore {
    let meta = source.meta().unwrap();
    ArchiveStore::open(Vec::new(), source.families(), &meta).unwrap()
}

/// The core promise: what comes out of the archive is byte-for-byte what went into the node,
/// arrival stamps included. Anything less and a restored journal would not replay in the same
/// order the node's did.
#[test]
fn a_pass_copies_journal_entries_byte_for_byte() {
    let mut node = Node::create();
    for i in 0..5u64 {
        node.append(Cf::Block, i, 1, 1000 + i, format!("block-{i}").as_bytes());
    }
    for i in 0..3u64 {
        node.append(Cf::Request(0), i, 1, 2000 + i, b"req");
    }

    let source = node.open_reader();
    let mut archive = fresh_archive(&source);
    let report = pass::run(&source, &mut archive, true).unwrap();

    assert_eq!(report.watermarks.get(&Cf::Block), Some(&4));
    assert_eq!(report.watermarks.get(&Cf::Request(0)), Some(&2));
    assert!(report.gaps.is_empty());

    for cf in [Cf::Block, Cf::Request(0)] {
        let from_node = pairs(source.scan_raw(cf).unwrap());
        assert_eq!(archive_dump(&archive, cf), from_node, "{}", cf.name());
    }
}

/// A second pass resumes from the archive's own tip rather than re-copying, and needs no state
/// file to do it.
#[test]
fn a_second_pass_copies_only_what_is_new() {
    let mut node = Node::create();
    for i in 0..4u64 {
        node.append(Cf::Block, i, 1, i, b"v");
    }

    let source = node.open_reader();
    let mut archive = fresh_archive(&source);

    let first = pass::run(&source, &mut archive, false).unwrap();
    assert_eq!(first.copied.get(&Cf::Block), Some(&4));

    // Nothing new: a pass must copy nothing rather than re-copy everything.
    let second = pass::run(&source, &mut archive, false).unwrap();
    assert_eq!(second.copied.get(&Cf::Block), None);
    assert_eq!(second.watermarks.get(&Cf::Block), Some(&3));

    for i in 4..7u64 {
        node.append(Cf::Block, i, 1, i, b"v");
    }
    let source = node.open_reader();
    let third = pass::run(&source, &mut archive, false).unwrap();
    assert_eq!(third.copied.get(&Cf::Block), Some(&3));
    assert_eq!(third.watermarks.get(&Cf::Block), Some(&6));
}

/// The failure this whole design exists to prevent: the node deleted entries the archive never
/// copied. It must be reported, never silently skipped, because nothing can recover that range.
#[test]
fn a_range_deleted_before_it_was_archived_is_reported_as_a_gap() {
    let mut node = Node::create();
    for i in 0..3u64 {
        node.append(Cf::Block, i, 1, i, b"v");
    }

    let source = node.open_reader();
    let mut archive = fresh_archive(&source);
    pass::run(&source, &mut archive, false).unwrap();

    // The node moves on and trims past where the archive got to.
    for i in 3..10u64 {
        node.append(Cf::Block, i, 1, i, b"v");
    }
    node.trim(Cf::Block, 7);

    let source = node.open_reader();
    let report = pass::run(&source, &mut archive, false).unwrap();
    let gap = report
        .gaps
        .iter()
        .find(|g| g.cf == Cf::Block)
        .expect("the lost range was not reported");
    assert_eq!(gap.expected_from, 3);
    assert_eq!(gap.node_floor, 7);
    // It still copies what survives -- a gap is a report, not a halt.
    assert_eq!(report.watermarks.get(&Cf::Block), Some(&9));
    assert_eq!(
        gap.display(),
        "Block: entries 3..6 were deleted before this archive copied them"
    );
}

/// A fresh archive against an already-trimmed store is late, not holed: it starts at the node's
/// floor and reports no gap. Without this every pass forever would claim a gap at the same place.
#[test]
fn a_fresh_archive_against_a_trimmed_store_starts_at_the_floor() {
    let mut node = Node::create();
    for i in 0..10u64 {
        node.append(Cf::Block, i, 1, i, b"v");
    }
    node.trim(Cf::Block, 6);

    let source = node.open_reader();
    let mut archive = fresh_archive(&source);
    let report = pass::run(&source, &mut archive, false).unwrap();

    assert!(report.gaps.is_empty(), "a late start is not a gap");
    assert_eq!(report.copied.get(&Cf::Block), Some(&4));
    assert_eq!(report.watermarks.get(&Cf::Block), Some(&9));
}

/// Non-journal families have no resume point, so a full pass rewrites them. The newest snapshot
/// must win rather than accumulate.
#[test]
fn a_rewritten_snapshot_is_replaced_not_accumulated() {
    let mut node = Node::create();
    node.put_plain(Cf::DepositMap, b"deposits", b"first");

    let source = node.open_reader();
    let mut archive = fresh_archive(&source);
    pass::run(&source, &mut archive, true).unwrap();

    node.put_plain(Cf::DepositMap, b"deposits", b"second");
    let source = node.open_reader();
    pass::run(&source, &mut archive, true).unwrap();

    assert_eq!(
        archive_dump(&archive, Cf::DepositMap),
        vec![(b"deposits".to_vec(), b"second".to_vec())]
    );
}

/// A tail pass leaves the non-journal families alone -- that is the whole point of the two
/// cadences, since those cost a full scan whether anything changed or not.
#[test]
fn a_tail_pass_does_not_touch_the_non_journal_families() {
    let mut node = Node::create();
    node.put_plain(Cf::Treasury, b"treasury", b"v");
    node.append(Cf::Block, 0, 1, 0, b"v");

    let source = node.open_reader();
    let mut archive = fresh_archive(&source);
    let report = pass::run(&source, &mut archive, false).unwrap();

    assert_eq!(report.copied.get(&Cf::Block), Some(&1));
    assert_eq!(report.copied.get(&Cf::Treasury), None);
    assert!(archive_dump(&archive, Cf::Treasury).is_empty());
}

/// Per-node archives all look alike on disk. The identity stamp is what stops peer 1's journals
/// being appended into peer 0's archive -- producing a file that looks whole and means something
/// else. Hydrozoa stamps its stores for this reason; the archive inherits both.
#[test]
fn an_archive_refuses_a_store_belonging_to_another_peer() {
    let mut node = Node::create();
    node.append(Cf::Block, 0, 1, 0, b"v");

    let source = node.open_reader();
    let meta = source.meta().unwrap();
    let archive = fresh_archive(&source);

    // Same head, different peer.
    let mut other = meta.clone();
    other.identity.as_mut().unwrap().own_peer_id = PeerId::Head(7);
    let err = match ArchiveStore::open(on_disk(&archive), source.families(), &other) {
        Ok(_) => panic!("an archive accepted a store belonging to another peer"),
        Err(e) => e,
    };
    let text = err.message();
    assert!(text.contains("different head"), "unexpected error: {text}");

    // ...and a different head entirely.
    let mut other = meta.clone();
    other.identity.as_mut().unwrap().head_id = "beef99".into();
    assert!(ArchiveStore::open(on_disk(&archive), source.families(), &other).is_err());
}

/// An archive reopened against the store it belongs to is fine, and keeps what it had.
#[test]
fn an_archive_reopens_against_its_own_store() {
    let mut node = Node::create();
    node.append(Cf::Block, 0, 1, 0, b"v");

    let source = node.open_reader();
    let meta = source.meta().unwrap();
    let mut archive = fresh_archive(&source);
    pass::run(&source, &mut archive, true).unwrap();

    let archive = ArchiveStore::open(on_disk(&archive), source.families(), &meta).unwrap();
    assert_eq!(archive.tip(Cf::Block).unwrap(), Some(0));
}

#[test]
fn a_fresh_archive_is_stamped_with_the_sources_identity() {
    let source = Node::create().open_reader();
    let archive = fresh_archive(&source);
    let found = archive.identity().unwrap().unwrap();
    assert_eq!(Some(found), source.meta().unwrap().identity);
    assert_eq!(archive.tip(Cf::Block).unwrap(), None);
    assert!(matches!(archive.tip(Cf::Meta), Err(StoreError::NoTip { .. })));
}

#[test]
fn a_store_without_an_identity_is_not_archived() {
    let source = Node::create().open_reader();
    let unstamped = StoreMeta {
        version: 3,
        identity: None,
    };
    assert!(matches!(
        ArchiveStore::open(Vec::new(), source.families(), &unstamped),
        Err(StoreError::NoIdentity)
    ));
}

#[test]
fn a_refused_archive_is_left_as_it_was() {
    let source = Node::create().open_reader();
    let mut archive = fresh_archive(&source);
    let before = archive_dump(&archive, Cf::Meta);
    let mut other = source.meta().unwrap();
    other.identity.as_mut().unwrap().head_params_hash = "other".into();
    assert!(archive.stamp_or_check(&other).is_err());
    assert_eq!(archive_dump(&archive, Cf::Meta), before);
    assert!(archive.stamp_or_check(&source.meta().unwrap()).is_ok());
    assert_eq!(archive_dump(&archive, Cf::Meta), before);
}

#[test]
fn an_archive_with_a_family_not_asked_for_is_refused() {
    let source = Node::create().open_reader();
    let meta = source.meta().unwrap();
    let family = |name: &str| Family {
        name: name.into(),
        table: Table::new(),
    };
    let open = |names: &[&str], families: &Vec<Cf>, meta: &StoreMeta| {
        ArchiveStore::open(names.iter().map(|n| family(n)).collect(), families, meta)
    };
    assert!(open(&["default", "Meta", "Block"], source.families(), &meta).is_ok());
    assert!(matches!(
        open(&["default", "Block", "Meta", "Stack"], &vec![Cf::Meta], &meta),
        Err(StoreError::NotAskedFor { name }) if name == "Block"
    ));
    // It comes before the stamp is looked at.
    let unstamped = StoreMeta {
        version: 3,
        identity: None,
    };
    assert!(matches!(
        open(&["Meta", "FutureFamily"], source.families(), &unstamped),
        Err(StoreError::NotAskedFor { name }) if name == "FutureFamily"
    ));
}

#[test]
fn an_archive_without_the_meta_family_cannot_be_stamped() {
    let source = Node::create().open_reader();
    let opened = ArchiveStore::open(Vec::new(), &vec![Cf::Block], &source.meta().unwrap());
    assert!(matches!(
        opened,
        Err(StoreError::MissingFromArchive { cf: Cf::Meta })
    ));
}

#[test]
fn stamping_writes_five_rows() {
    let identity = StoreIdentity {
        head_params_hash: "h".into(),
        head_id: "i".into(),
        head_address: "a".into(),
        own_peer_id: PeerId::Coil(4),
    };
    let rows = pairs(&identity_rows(3, &identity));
    assert_eq!(
        rows,
        vec![
            (b"store_version".to_vec(), vec![0, 0, 0, 3]),
            (b"head_params_hash".to_vec(), b"h".to_vec()),
            (b"head_id".to_vec(), b"i".to_vec()),
            (b"head_address".to_vec(), b"a".to_vec()),
            (b"own_peer_id".to_vec(), vec![0, 0, 0, 8]),
        ]
    );
    assert!(matches!(check_stamp(None, &identity), Ok(Stamp::Write)));
    assert!(matches!(
        check_stamp(Some(&identity), &identity),
        Ok(Stamp::Keep)
    ));

    let source = StoreMeta {
        version: 3,
        identity: Some(identity.clone()),
    };
    assert_eq!(pairs(&rows_to_stamp(&source, Ok(None)).unwrap().unwrap()), rows);
    assert!(rows_to_stamp(&source, Ok(Some(identity.clone()))).unwrap().is_none());
    let mut other = identity;
    other.head_id = "j".into();
    assert!(matches!(
        rows_to_stamp(&source, Ok(Some(other))),
        Err(StoreError::DifferentIdentity { .. })
    ));
    assert!(matches!(
        rows_to_stamp(&source, Err(StoreError::PartialIdentity { present: 2 })),
        Err(StoreError::PartialIdentity { present: 2 })
    ));
    let unstamped = StoreMeta {
        version: 3,
        identity: None,
    };
    assert!(matches!(
        rows_to_stamp(&unstamped, Err(StoreError::PartialIdentity { present: 2 })),
        Err(StoreError::NoIdentity)
    ));
}

/// A failed pass keeps whole batches only, and a retry picks up from there.
#[test]
fn an_unreadable_entry_ends_a_pass_with_whole_batches_kept() {
    let mut node = Node::create();
    let bad = BATCH as u64 + 5;
    for i in 0..bad {
        node.append(Cf::Block, i, 1, i, b"v");
    }
    node.put_plain(Cf::Block, &journal::encode_key(Cf::Block, bad).unwrap(), b"short");

    let source = node.open_reader();
    let mut archive = fresh_archive(&source);
    let failed = match pass::run(&source, &mut archive, true) {
        Ok(_) => panic!("a pass read a value without a stamp"),
        Err(e) => e,
    };
    assert!(matches!(
        failed,
        StoreError::UnreadableEntry { cf: Cf::Block, index, found: 5 } if index == bad
    ));
    assert_eq!(archive_dump(&archive, Cf::Block).len(), BATCH);

    node.append(Cf::Block, bad, 1, bad, b"mended");
    let source = node.open_reader();
    let report = pass::run(&source, &mut archive, false).unwrap();
    assert_eq!(report.copied.get(&Cf::Block), Some(&6));
    assert_eq!(
        archive_dump(&archive, Cf::Block),
        pairs(source.scan_raw(Cf::Block).unwrap())
    );
}

/// A crash costs a little re-copying: the next pass ends where the crashed one would have.
#[test]
fn a_pass_after_a_crash_ends_where_the_crashed_one_would_have() {
    let mut node = Node::create();
    for i in 0..6u64 {
        node.append(Cf::Block, i, 1, i, &[i as u8]);
        node.append(Cf::Request(1), i, 1, i, &[i as u8]);
    }
    node.put_plain(Cf::Treasury, b"a", b"1");
    node.put_plain(Cf::Treasury, b"b", b"2");
    let source = node.open_reader();

    let mut whole = fresh_archive(&source);
    let whole_report = pass::run(&source, &mut whole, true).unwrap();

    let mut crashed = fresh_archive(&source);
    let some = |cf: Cf, k: usize| -> Vec<Row> {
        source.scan_raw(cf).unwrap()[..k].to_vec()
    };
    crashed.put_raw(Cf::Block, &some(Cf::Block, 6)).unwrap();
    crashed.put_raw(Cf::Request(1), &some(Cf::Request(1), 2)).unwrap();
    crashed.put_raw(Cf::Treasury, &some(Cf::Treasury, 1)).unwrap();
    let report = pass::run(&source, &mut crashed, true).unwrap();

    for cf in families() {
        assert_eq!(archive_dump(&crashed, cf), archive_dump(&whole, cf), "{}", cf.name());
    }
    assert_eq!(report.watermarks.entries(), whole_report.watermarks.entries());
    assert_eq!(report.copied.get(&Cf::Block), None);
    assert_eq!(report.copied.get(&Cf::Request(1)), Some(&4));
    assert!(report.gaps.is_empty());
}

#[test]
fn a_second_full_pass_changes_nothing() {
    let mut node = Node::create();
    for i in 0..3u64 {
        node.append(Cf::Stack, i, 1, i, b"v");
    }
    node.put_plain(Cf::EvacuationMap, b"k", b"v");
    let source = node.open_reader();
    let mut archive = fresh_archive(&source);
    let first = pass::run(&source, &mut archive, true).unwrap();
    let held: Vec<_> = families().into_iter().map(|cf| archive_dump(&archive, cf)).collect();
    let second = pass::run(&source, &mut archive, true).unwrap();
    let now: Vec<_> = families().into_iter().map(|cf| archive_dump(&archive, cf)).collect();
    assert_eq!(now, held);
    assert_eq!(second.watermarks.entries(), first.watermarks.entries());
    assert_eq!(second.copied.get(&Cf::Stack), None);
}

#[test]
fn a_full_pass_keeps_what_the_node_no_longer_holds() {
    let mut node = Node::create();
    node.put_plain(Cf::Treasury, b"b", b"1");
    let source = node.open_reader();
    let mut archive = fresh_archive(&source);
    pass::run(&source, &mut archive, true).unwrap();

    node.rows(Cf::Treasury).clear();
    node.put_plain(Cf::Treasury, b"a", b"2");
    let source = node.open_reader();
    let report = pass::run(&source, &mut archive, true).unwrap();
    assert_eq!(report.copied.get(&Cf::Treasury), Some(&1));
    assert_eq!(
        archive_dump(&archive, Cf::Treasury),
        vec![(b"a".to_vec(), b"2".to_vec()), (b"b".to_vec(), b"1".to_vec())]
    );
    // The five rows of the stamp and the treasury's one.
    assert_eq!(report.total_copied(), 6);
}

#[test]
fn a_journal_at_its_last_index_has_none_to_resume_from() {
    let mut node = Node::create();
    node.append(Cf::Block, u64::from(u32::MAX), 1, 0, b"v");
    let source = node.open_reader();
    let mut archive = fresh_archive(&source);
    let first = pass::run(&source, &mut archive, false).unwrap();
    assert_eq!(first.watermarks.get(&Cf::Block), Some(&u64::from(u32::MAX)));
    assert!(matches!(
        pass::run(&source, &mut archive, false),
        Err(StoreError::IndexTooLarge { cf: Cf::Block, index: 4_294_967_296 })
    ));
}

#[test]
fn a_family_under_an_unusual_name_is_not_found_under_its_own() {
    let mut node = Node::create();
    node.content.push(("Request:09".into(), Vec::new()));
    let source = node.open_reader();
    assert!(source.families().contains(&Cf::Request(9)));
    assert!(matches!(
        source.tip(Cf::Request(9)),
        Err(StoreError::MissingFromStore { cf: Cf::Request(9) })
    ));
}

#[test]
fn unknown_families_are_reported() {
    let mut node = Node::create();
    node.content.push(("Novelty".into(), Vec::new()));
    node.content.push(("Novelty:2".into(), Vec::new()));
    let source = node.open_reader();
    assert_eq!(source.unknown_families(), &vec!["Novelty".to_string(), "Novelty:2".to_string()]);
    assert_eq!(source.families(), &families());
    let journals: Vec<Cf> = families().into_iter().filter(|c| c.is_journal()).collect();
    assert_eq!(source.journals(), journals);
}

#[test]
fn a_store_is_read_by_index() {
    let mut node = Node::create();
    for i in [3u64, 5, 9] {
        node.append(Cf::Request(1), i, 2, i, &[i as u8]);
    }
    let source = node.open_reader();
    assert_eq!(source.floor(Cf::Request(1)).unwrap(), Some(3));
    assert_eq!(source.tip(Cf::Request(1)).unwrap(), Some(9));
    assert_eq!(source.tip(Cf::Stack).unwrap(), None);
    assert_eq!(source.floor(Cf::Stack).unwrap(), None);

    let mut scan = source.scan(Cf::Request(1), 4).unwrap();
    let mut seen = Vec::new();
    while let Some(entry) = scan.next() {
        seen.push(entry.unwrap().index);
    }
    assert_eq!(seen, vec![5, 9]);
    assert!(scan.next().is_none());

    let entry = source.get(Cf::Request(1), 5).unwrap().unwrap();
    assert_eq!((entry.index, entry.payload), (5, vec![5]));
    assert!(source.get(Cf::Request(1), 4).unwrap().is_none());
    assert!(matches!(
        source.scan(Cf::Meta, 0),
        Err(StoreError::NotScannable { .. })
    ));
    assert!(matches!(
        source.get(Cf::Meta, 0),
        Err(StoreError::NoIndexedEntries { .. })
    ));
}

#[test]
fn a_journal_copy_hands_out_a_batch_when_it_is_full() {
    let entry = |index: u64| journal::Entry {
        cf: Cf::Block,
        index,
        stamp: ArrivalStamp::default(),
        payload: vec![1],
    };
    let mut copy = JournalCopy::start(Cf::Block, Some(4), Some(5));
    assert_eq!(copy.from(), 5);
    assert_eq!(copy.gap(), None);
    for i in 0..BATCH as u64 - 1 {
        assert_eq!(copy.feed(&entry(5 + i)).unwrap(), false);
    }
    assert!(copy.feed(&entry(4 + BATCH as u64)).unwrap());
    assert_eq!(copy.take_batch().len(), BATCH);
    assert!(copy.take_batch().is_empty());
    let mut report = PassReport::new();
    copy.record(&mut report);
    assert_eq!(report.copied.get(&Cf::Block), Some(&(BATCH as u64)));
    assert_eq!(report.watermarks.get(&Cf::Block), Some(&(4 + BATCH as u64)));

    let late = JournalCopy::start(Cf::Block, None, Some(7));
    assert_eq!((late.from(), late.gap()), (7, None));
    let empty = JournalCopy::start(Cf::Block, None, None);
    assert_eq!((empty.from(), empty.gap()), (0, None));
    let holed = JournalCopy::start(Cf::Block, Some(1), Some(7));
    assert_eq!(
        holed.gap(),
        Some(Gap {
            cf: Cf::Block,
            expected_from: 2,
            node_floor: 7
        })
    );
    let mut report = PassReport::new();
    holed.note_gap(&mut report);
    assert_eq!(report.gaps, [holed.gap().unwrap()]);
    assert!(report.copied.is_empty() && report.watermarks.is_empty());
    holed.record(&mut report);
    assert_eq!(report.gaps.len(), 1);
    assert_eq!(report.watermarks.get(&Cf::Block), Some(&1));
    assert!(report.copied.is_empty());
}

#[test]
fn a_family_copy_counts_what_it_was_fed() {
    let mut copy = FamilyCopy::start(Cf::Treasury);
    for i in 0..3u8 {
        assert!(!copy.feed(Row {
            key: vec![i],
            value: vec![]
        }));
    }
    assert_eq!(copy.take_batch().len(), 3);
    let mut report = PassReport::new();
    copy.record(&mut report);
    assert_eq!(report.copied.get(&Cf::Treasury), Some(&3));
    assert!(report.watermarks.is_empty());
}

#[test]
fn rows_stand_in_key_order_and_a_key_has_one_value() {
    let t = table(&[
        (vec![2], vec![1]),
        (vec![1, 0], vec![2]),
        (vec![1], vec![3]),
        (vec![2], vec![4]),
    ]);
    assert_eq!(
        pairs(t.rows()),
        vec![
            (vec![1], vec![3]),
            (vec![1, 0], vec![2]),
            (vec![2], vec![4])
        ]
    );
    assert_eq!(t.get(&[1, 0]), Some(&vec![2]));
    assert_eq!(t.get(&[3]), None);
    assert_eq!(t.seek(&[1, 0]), 1);
    assert_eq!(t.seek(&[9]), 3);
}
