//! The cache file and the write-ahead log.
use picante::persist::load::{
    end_load, next_load_step, plan_file, plan_load, IngredientInfo, LoadStep,
};
use picante::persist::log::{
    append_changes, compact_file_name, next_compaction_step, next_replay_step, plan_replay,
    CompactionStep, ReplayStep,
};
use picante::persist::save::{
    build_section, encode_for_save, ensure_unique_kinds, shrink_cache_to_fit,
};
use picante::persist::{
    decode_cache_file, encode_cache_file, CacheFile, CacheLoadOptions, CacheSaveOptions,
    OnCorruptCache, Section, SectionType,
};
use picante::wal::{WalEntry, WalOperation, WalReader, WalWriter};
use picante::{PicanteError, PicanteResult, QueryKindId, Revision};

fn info(kind: u32, kind_name: &'static str, section_type: SectionType) -> IngredientInfo {
    IngredientInfo { kind: QueryKindId(kind), kind_name, section_type }
}

fn known() -> [IngredientInfo; 2] {
    [info(1, "Text", SectionType::Input), info(2, "Len", SectionType::Derived)]
}

fn section(kind_id: u32, name: &str, section_type: SectionType, records: &[&[u8]]) -> Section {
    Section {
        kind_id,
        kind_name: name.to_string(),
        section_type,
        records: records.iter().map(|r| r.to_vec()).collect(),
    }
}

fn file(revision: u64, sections: Vec<Section>) -> CacheFile {
    CacheFile { format_version: 1, current_revision: revision, sections }
}

#[test]
fn load_corrupt_cache_ignored() {
    let options = CacheLoadOptions { max_bytes: None, on_corrupt: OnCorruptCache::Ignore };
    let outcome = plan_load(b"not a valid cache", &known(), &options).map(|_| true);
    assert!(outcome.is_err());
    let end = end_load(outcome, options.on_corrupt);
    assert!(!end.result.unwrap());
    assert!(!end.delete_file);
}

#[test]
fn load_corrupt_cache_deleted() {
    let options = CacheLoadOptions { max_bytes: None, on_corrupt: OnCorruptCache::Delete };
    let outcome = plan_load(b"not a valid cache", &known(), &options).map(|_| true);
    let end = end_load(outcome, options.on_corrupt);
    assert!(!end.result.unwrap());
    assert!(end.delete_file);
}

#[test]
fn load_with_options_using_convenience_methods() {
    let options = CacheLoadOptions { max_bytes: None, on_corrupt: OnCorruptCache::Ignore };
    let outcome = plan_load(b"not a valid cache", &[], &options).map(|_| true);
    assert!(!end_load(outcome, options.on_corrupt).result.unwrap());
}

#[test]
fn an_error_is_kept_where_the_policy_asks_for_it() {
    let options = CacheLoadOptions::default();
    assert_eq!(options.on_corrupt, OnCorruptCache::Error);
    let outcome = plan_load(b"not a valid cache", &known(), &options).map(|_| true);
    let end = end_load(outcome, options.on_corrupt);
    match &*end.result.unwrap_err() {
        PicanteError::Decode { what, .. } => assert_eq!(*what, "cache file"),
        other => panic!("expected decode error, got {other:?}"),
    }
    assert!(end_load(Ok(true), OnCorruptCache::Delete).result.unwrap());
    assert!(!end_load(Ok(true), OnCorruptCache::Delete).delete_file);
}

#[test]
fn load_cache_respects_max_bytes() {
    let options = CacheLoadOptions { max_bytes: Some(8), on_corrupt: OnCorruptCache::Error };
    let err = plan_load(&[0u8; 16], &known(), &options).unwrap_err();

    match &*err {
        PicanteError::Cache { message } => {
            assert!(message.contains("cache file too large"));
            assert_eq!(message, "cache file too large (16 bytes > max 8)");
        }
        other => panic!("expected cache error, got {other:?}"),
    }
}

#[test]
fn load_cache_ignores_unknown_sections() {
    let cache = file(
        123,
        vec![
            section(999, "Unknown", SectionType::Input, &[b"ignored"]),
            section(1, "Text", SectionType::Input, &[]),
        ],
    );
    let bytes = encode_cache_file(&cache).unwrap();
    let plan = plan_load(&bytes, &known(), &CacheLoadOptions::default()).unwrap();
    assert!(plan.failure.is_none());
    assert_eq!(plan.revision, Revision(123));
    assert_eq!(plan.loads.len(), 1);
    assert_eq!(plan.loads[0].ingredient, 0);
}

#[test]
fn load_cache_kind_name_mismatch_is_warning() {
    let cache = file(1, vec![section(1, "NotText", SectionType::Input, &[])]);
    let bytes = encode_cache_file(&cache).unwrap();
    let options = CacheLoadOptions { max_bytes: None, on_corrupt: OnCorruptCache::Ignore };
    let plan = plan_load(&bytes, &known()[..1], &options).unwrap();
    assert!(plan.failure.is_none());
    assert_eq!(plan.loads.len(), 1);
}

#[test]
fn a_section_of_another_type_fails_after_those_before_it() {
    let cache = file(
        1,
        vec![
            section(1, "Text", SectionType::Input, &[b"x"]),
            section(2, "Len", SectionType::Interned, &[b"y"]),
            section(1, "Text", SectionType::Input, &[b"z"]),
        ],
    );
    let plan = plan_file(cache, &known()).unwrap();
    assert_eq!(plan.loads.len(), 1);
    assert_eq!(plan.loads[0].records, vec![b"x".to_vec()]);
    assert_eq!(
        plan.failure.unwrap().message(),
        "cache error: section type mismatch for id 2 (`Len`)"
    );
}

#[test]
fn a_cache_file_is_written_as_numbers_texts_and_lists() {
    let cache = file(
        300,
        vec![
            section(7, "\u{e9}", SectionType::Derived, &[b"ab", b""]),
            section(200, "", SectionType::Interned, &[]),
        ],
    );
    assert_eq!(
        encode_cache_file(&cache).unwrap(),
        [
            &[1, 172, 2, 2][..],
            &[7, 2, 0xc3, 0xa9, 1, 2, 2, b'a', b'b', 0],
            &[200, 1, 0, 2, 0],
        ]
        .concat()
    );
}

#[test]
fn shrinking_orders_records_by_length_and_keeps_ties_in_order() {
    let records: [&[u8]; 7] = [b"ccc", b"a", b"bb", b"CCC", b"A", b"", b"eeeeeeeeee"];
    let mut cache = file(1, vec![section(1, "Text", SectionType::Input, &records)]);
    let before = encode_cache_file(&cache).unwrap().len();
    shrink_cache_to_fit(&mut cache, before - 1).unwrap();
    let kept: [&[u8]; 6] = [b"", b"a", b"A", b"bb", b"ccc", b"CCC"];
    assert_eq!(cache.sections[0].records, kept);
}

/// The steps of a replay, of which the one numbered `failing` fails.
fn replay_steps(
    changes: usize,
    ingredients: usize,
    outcome: PicanteResult<Option<Revision>>,
    failing: usize,
) -> Vec<ReplayStep> {
    let mut all = vec![ReplayStep::Start];
    loop {
        let last = all[all.len() - 1];
        if last == ReplayStep::Done || last == ReplayStep::Failed {
            return all;
        }
        all.push(next_replay_step(last, all.len() != failing, changes, ingredients, &outcome));
    }
}

#[test]
fn a_replay_goes_in_order() {
    let unread = || Err(std::sync::Arc::new(PicanteError::Cache { message: "no".to_string() }));
    assert_eq!(
        replay_steps(2, 2, Ok(Some(Revision(7))), 0),
        [
            ReplayStep::Start,
            ReplayStep::Apply(0),
            ReplayStep::Apply(1),
            ReplayStep::SetRevision(Revision(7)),
            ReplayStep::Restore(0),
            ReplayStep::Restore(1),
            ReplayStep::Done,
        ]
    );
    // Where the revision does not move, it is not set.
    assert_eq!(
        replay_steps(0, 1, Ok(None), 0),
        [ReplayStep::Start, ReplayStep::Restore(0), ReplayStep::Done]
    );
    assert_eq!(replay_steps(0, 0, Ok(None), 0), [ReplayStep::Start, ReplayStep::Done]);
    // What could be read is applied before the replay fails.
    assert_eq!(
        replay_steps(1, 2, unread(), 0),
        [ReplayStep::Start, ReplayStep::Apply(0), ReplayStep::Failed]
    );
    // A change or a restore that fails ends it.
    assert_eq!(
        replay_steps(2, 2, Ok(Some(Revision(7))), 2),
        [ReplayStep::Start, ReplayStep::Apply(0), ReplayStep::Failed]
    );
    assert_eq!(
        replay_steps(1, 2, Ok(Some(Revision(7))), 4),
        [
            ReplayStep::Start,
            ReplayStep::Apply(0),
            ReplayStep::SetRevision(Revision(7)),
            ReplayStep::Restore(0),
            ReplayStep::Failed,
        ]
    );
}

/// The steps of a load, of which the one numbered `failing` fails.
fn steps(ingredients: usize, loads: usize, refused: bool, failing: usize) -> Vec<LoadStep> {
    let mut all = vec![LoadStep::ClearGraph];
    loop {
        let last = all[all.len() - 1];
        if last == LoadStep::Done || last == LoadStep::Failed {
            return all;
        }
        all.push(next_load_step(last, all.len() != failing, ingredients, loads, refused));
    }
}

#[test]
fn a_load_goes_in_order() {
    assert_eq!(
        steps(2, 1, false, 0),
        [
            LoadStep::ClearGraph,
            LoadStep::Clear(0),
            LoadStep::Clear(1),
            LoadStep::Load(0),
            LoadStep::Restore(0),
            LoadStep::Restore(1),
            LoadStep::SetRevision,
            LoadStep::Done,
        ]
    );
    assert_eq!(
        steps(1, 2, true, 0),
        [
            LoadStep::ClearGraph,
            LoadStep::Clear(0),
            LoadStep::Load(0),
            LoadStep::Load(1),
            LoadStep::Failed,
        ]
    );
    assert_eq!(
        steps(0, 0, false, 0),
        [LoadStep::ClearGraph, LoadStep::SetRevision, LoadStep::Done]
    );
    // A load or a restore that fails ends it.
    assert_eq!(
        steps(1, 2, false, 3),
        [LoadStep::ClearGraph, LoadStep::Clear(0), LoadStep::Load(0), LoadStep::Failed]
    );
    assert_eq!(
        steps(1, 0, false, 3),
        [LoadStep::ClearGraph, LoadStep::Clear(0), LoadStep::Restore(0), LoadStep::Failed]
    );
}

#[test]
fn another_format_version_is_refused() {
    let mut cache = file(1, vec![]);
    cache.format_version = 7;
    assert_eq!(
        plan_file(cache, &known()).unwrap_err().message(),
        "cache error: unsupported cache format version 7; expected 1"
    );
}

#[test]
fn a_cache_file_is_read_back() {
    let cache = file(
        300,
        vec![
            section(7, "a", SectionType::Derived, &[b"xy", b""]),
            section(8, "b", SectionType::Interned, &[]),
        ],
    );
    let bytes = encode_cache_file(&cache).unwrap();
    // version, revision 300, two sections: id, name, type, records
    assert_eq!(
        bytes,
        [1, 172, 2, 2, 7, 1, b'a', 1, 2, 2, b'x', b'y', 0, 8, 1, b'b', 2, 0]
    );
    let back = decode_cache_file(&bytes).unwrap();
    assert_eq!(back.current_revision, 300);
    assert_eq!(back.sections.len(), 2);
    assert_eq!(back.sections[0].kind_name, "a");
    assert_eq!(back.sections[0].section_type, SectionType::Derived);
    assert_eq!(back.sections[0].records, vec![b"xy".to_vec(), vec![]]);
    assert_eq!(back.sections[1].section_type, SectionType::Interned);

    let mut wrong = bytes.clone();
    wrong[7] = 9;
    match &*decode_cache_file(&wrong).unwrap_err() {
        PicanteError::Decode { what, message } => {
            assert_eq!(*what, "cache file");
            assert_eq!(message, "unknown section type 9");
        }
        other => panic!("expected decode error, got {other:?}"),
    }
    assert!(decode_cache_file(&bytes[..5]).is_err());

    // The index of the type may take more bytes than it needs.
    let longer = [&bytes[..7], &[129, 0], &bytes[8..]].concat();
    assert_eq!(
        decode_cache_file(&longer).unwrap().sections[0].section_type,
        SectionType::Derived
    );
}

#[test]
fn kinds_must_be_unique() {
    assert!(ensure_unique_kinds(&[QueryKindId(1), QueryKindId(2)]).is_ok());
    assert_eq!(
        ensure_unique_kinds(&[QueryKindId(1), QueryKindId(2), QueryKindId(1)])
            .unwrap_err()
            .message(),
        "cache error: duplicate ingredient kind id 1"
    );
}

#[test]
fn options_limit_the_records_of_a_section() {
    let records: Vec<Vec<u8>> = vec![vec![0; 5], vec![1; 2], vec![2; 3], vec![3; 1]];
    let options = CacheSaveOptions {
        max_bytes: None,
        max_records_per_section: Some(2),
        max_record_bytes: Some(3),
    };
    let section = build_section(QueryKindId(4), "K", SectionType::Input, records, &options);
    assert_eq!(section.kind_id, 4);
    assert_eq!(section.kind_name, "K");
    assert_eq!(section.records, vec![vec![1; 2], vec![2; 3]]);
}

#[test]
fn shrinking_drops_derived_records_first_and_the_longest_of_them() {
    let mut cache = file(
        1,
        vec![
            section(1, "i", SectionType::Input, &[&[1; 40], &[2; 10]]),
            section(2, "d", SectionType::Derived, &[&[3; 30], &[4; 20], &[5; 25]]),
            section(3, "n", SectionType::Interned, &[&[6; 5]]),
        ],
    );
    let before = encode_cache_file(&cache).unwrap().len();
    shrink_cache_to_fit(&mut cache, before).unwrap();
    assert_eq!(cache.sections[1].records[0].len(), 30);

    shrink_cache_to_fit(&mut cache, before - 40).unwrap();
    assert_eq!(cache.sections[1].records, vec![vec![4; 20]]);
    assert_eq!(cache.sections[0].records, vec![vec![2; 10], vec![1; 40]]);
    assert_eq!(cache.sections[2].records.len(), 1);

    shrink_cache_to_fit(&mut cache, 40).unwrap();
    assert!(cache.sections[1].records.is_empty());
    assert_eq!(cache.sections[0].records, vec![vec![2; 10]]);
    assert_eq!(cache.sections[2].records.len(), 1);
    assert!(encode_cache_file(&cache).unwrap().len() <= 40);
}

#[test]
fn shrinking_fails_where_nothing_fits() {
    let mut cache = file(1, vec![section(1, "i", SectionType::Input, &[&[1; 40]])]);
    // 1 + 1 + 1 + (1 + 2 + 1 + 1 + 1) bytes go to what is no record.
    assert_eq!(
        shrink_cache_to_fit(&mut cache, 9).unwrap_err().message(),
        "cache error: cache overhead (9 bytes) exceeds max_bytes (9)"
    );
    let mut sections = Vec::new();
    for i in 0..3 {
        sections.push(section(i, "s", SectionType::Input, &[]));
    }
    let options =
        CacheSaveOptions { max_bytes: Some(3), max_records_per_section: None, max_record_bytes: None };
    assert!(encode_for_save(1, sections, &options).is_err());
}

fn put(revision: u64, kind_id: u32, key: &[u8], value: &[u8]) -> WalEntry {
    WalEntry {
        revision,
        kind_id,
        operation: WalOperation::Put { key: key.to_vec(), value: value.to_vec() },
    }
}

fn delete(revision: u64, kind_id: u32, key: &[u8]) -> WalEntry {
    WalEntry { revision, kind_id, operation: WalOperation::Delete { key: key.to_vec() } }
}

#[test]
fn a_log_begins_with_its_header() {
    let mut wal = WalWriter::create(300).unwrap();
    assert_eq!(
        wal.take_flushed(),
        [&b"PICANTE\0"[..], &[3, 0, 0, 0, 1, 172, 2]].concat()
    );
    let mut last = WalWriter::create(u64::MAX).unwrap();
    let log = last.take_flushed();
    assert_eq!(log.len(), 8 + 4 + 1 + 10);
    assert_eq!(WalReader::open(log).unwrap().header().base_revision, u64::MAX);
}

#[test]
fn a_log_is_read_back() {
    let mut wal = WalWriter::create(4).unwrap();
    assert_eq!(wal.base_revision(), 4);
    wal.append(put(5, 1, b"k", b"v")).unwrap();
    wal.append(delete(6, 2, b"k")).unwrap();
    wal.flush();
    let log = wal.take_flushed();
    assert_eq!(
        log,
        [
            &b"PICANTE\0"[..],
            &[2, 0, 0, 0, 1, 4],
            &[7, 0, 0, 0, 5, 1, 0, 1, b'k', 1, b'v'],
            &[5, 0, 0, 0, 6, 2, 1, 1, b'k'],
        ]
        .concat()
    );
    assert!(wal.take_flushed().is_empty());

    let mut reader = WalReader::open(log.clone()).unwrap();
    assert_eq!(reader.header().format_version, 1);
    assert_eq!(reader.header().base_revision, 4);
    let first = reader.next_entry().unwrap().unwrap();
    assert_eq!((first.revision, first.kind_id), (5, 1));
    assert!(matches!(first.operation, WalOperation::Put { key, value } if key == b"k" && value == b"v"));
    let second = reader.next_entry().unwrap().unwrap();
    assert!(matches!(second.operation, WalOperation::Delete { key } if key == b"k"));
    assert!(reader.next_entry().unwrap().is_none());
    assert!(reader.next_entry().unwrap().is_none());

    let all = WalReader::open(log).unwrap().entries();
    assert_eq!(all.len(), 2);
}

#[test]
fn long_values_are_read_back() {
    let long = vec![7u8; (1 << 24) + 1];
    let mut wal = WalWriter::create(0).unwrap();
    wal.append(put(1, 1, b"k", &long)).unwrap();
    wal.flush();
    let mut reader = WalReader::open(wal.take_flushed()).unwrap();
    let entry = reader.next_entry().unwrap().unwrap();
    assert!(matches!(entry.operation, WalOperation::Put { value, .. } if value == long));

    let cache = file(1, vec![section(1, "i", SectionType::Input, &[&long])]);
    let back = decode_cache_file(&encode_cache_file(&cache).unwrap()).unwrap();
    assert!(back.sections[0].records[0] == long);
}

#[test]
fn a_log_flushes_by_itself() {
    let mut wal = WalWriter::create_with_threshold(0, 2).unwrap();
    let preamble = wal.take_flushed();
    assert_eq!(preamble.len(), 14);
    wal.append(delete(1, 1, b"a")).unwrap();
    assert!(wal.take_flushed().is_empty());
    wal.append(delete(2, 1, b"b")).unwrap();
    assert_eq!(wal.take_flushed().len(), 18);
    assert_eq!(WalWriter::DEFAULT_AUTO_FLUSH_THRESHOLD, 100);
}

#[test]
fn a_damaged_log_is_refused() {
    let refused = |bytes: &[u8]| WalReader::open(bytes.to_vec()).unwrap_err().message();
    assert_eq!(
        refused(b"PIC"),
        "cache error: Failed to read WAL magic bytes: failed to fill whole buffer"
    );
    assert_eq!(
        refused(b"PICANTE!"),
        "cache error: Invalid WAL magic bytes (expected [80, 73, 67, 65, 78, 84, 69, 0], got [80, 73, 67, 65, 78, 84, 69, 33])"
    );
    assert_eq!(
        refused(b"PICANTE\0\x01"),
        "cache error: Failed to read WAL header length: failed to fill whole buffer"
    );
    assert_eq!(
        refused(b"PICANTE\0\xff\xff\xff\xff"),
        "cache error: WAL header length (4294967295 bytes) exceeds maximum allowed (1000000 bytes) - file may be corrupted"
    );
    assert_eq!(
        refused(b"PICANTE\0\x05\0\0\0\x01"),
        "cache error: Failed to read WAL header: failed to fill whole buffer"
    );
    assert!(refused(b"PICANTE\0\x01\0\0\0\x01").starts_with("decode WAL header failed: "));
    assert_eq!(
        refused(b"PICANTE\0\x02\0\0\0\x03\x00"),
        "cache error: Unsupported WAL format version (expected 1, got 3)"
    );
}

#[test]
fn damaged_entries_are_reported() {
    let preamble = WalWriter::create(0).unwrap().take_flushed();
    let read = |tail: &[u8]| {
        let mut reader = WalReader::open([&preamble, tail].concat()).unwrap();
        let first = reader.next_entry().map(|e| e.is_some()).map_err(|e| e.message());
        (first, reader.next_entry().map(|e| e.is_some()).map_err(|e| e.message()))
    };
    assert_eq!(read(b""), (Ok(false), Ok(false)));
    assert_eq!(read(b"\x01\0"), (Ok(false), Ok(false)));
    assert_eq!(
        read(b"\x05\0\0\0\x01"),
        (
            Err("cache error: Failed to read WAL entry: failed to fill whole buffer".to_string()),
            Ok(false)
        )
    );
    assert_eq!(
        read(b"\xff\xff\xff\x7f").0,
        Err("cache error: WAL entry length (2147483647 bytes) exceeds maximum allowed (100000000 bytes) - file may be corrupted".to_string())
    );
    let (first, second) = read(b"\x01\0\0\0\xff\x05\0\0\0\x01\x01\x01\x01k");
    assert!(first.unwrap_err().starts_with("decode WAL entry failed: "));
    assert_eq!(second, Ok(true));
}

#[test]
fn changes_are_replayed_for_known_ingredients() {
    let mut wal = WalWriter::create(4).unwrap();
    let changes = vec![
        (5, b"a".to_vec(), Some(b"x".to_vec())),
        (7, b"b".to_vec(), None),
    ];
    assert_eq!(append_changes(&mut wal, QueryKindId(2), changes).unwrap(), 2);
    assert_eq!(
        append_changes(&mut wal, QueryKindId(99), vec![(50, b"z".to_vec(), None)]).unwrap(),
        1
    );
    wal.flush();
    let log = wal.take_flushed();

    let plan = plan_replay(log.clone(), Revision(4), &known()).unwrap();
    assert_eq!(plan.changes.len(), 2);
    assert_eq!(plan.changes[0].ingredient, 1);
    assert_eq!(plan.changes[0].revision, 5);
    assert_eq!(plan.changes[0].key, b"a");
    assert_eq!(plan.changes[0].value, Some(b"x".to_vec()));
    assert_eq!(plan.changes[1].value, None);
    // The unknown kind does not count, not even for the revision.
    assert_eq!(plan.outcome.unwrap(), Some(Revision(7)));

    assert_eq!(
        plan_replay(log.clone(), Revision(5), &known()).unwrap_err().message(),
        "cache error: WAL base revision (4) does not match snapshot revision (5)"
    );

    let cut = log[..log.len() - 1].to_vec();
    let plan = plan_replay(cut, Revision(4), &known()).unwrap();
    assert_eq!(plan.changes.len(), 2);
    assert!(plan.outcome.is_err());

    let empty = WalWriter::create(4).unwrap().take_flushed();
    assert_eq!(plan_replay(empty, Revision(4), &known()).unwrap().outcome.unwrap(), None);
}

#[test]
fn a_compaction_keeps_the_log_until_the_snapshot_is_installed() {
    assert_eq!(next_compaction_step(CompactionStep::SaveSnapshot, true, true, true), CompactionStep::InstallSnapshot);
    assert_eq!(next_compaction_step(CompactionStep::SaveSnapshot, false, true, true), CompactionStep::Failed);
    assert_eq!(next_compaction_step(CompactionStep::InstallSnapshot, true, true, true), CompactionStep::DeleteLog);
    assert_eq!(next_compaction_step(CompactionStep::InstallSnapshot, true, false, true), CompactionStep::CreateLog);
    assert_eq!(next_compaction_step(CompactionStep::InstallSnapshot, true, false, false), CompactionStep::Done);
    assert_eq!(next_compaction_step(CompactionStep::InstallSnapshot, false, true, true), CompactionStep::RemoveTemporary);
    assert_eq!(next_compaction_step(CompactionStep::RemoveTemporary, true, true, true), CompactionStep::Failed);
    assert_eq!(next_compaction_step(CompactionStep::DeleteLog, true, true, false), CompactionStep::Done);
    assert_eq!(next_compaction_step(CompactionStep::DeleteLog, true, true, true), CompactionStep::CreateLog);
    assert_eq!(next_compaction_step(CompactionStep::DeleteLog, false, true, true), CompactionStep::Failed);
    assert_eq!(next_compaction_step(CompactionStep::CreateLog, true, true, true), CompactionStep::Done);
    assert_eq!(compact_file_name(Some("cache.bin"), 7), "cache.bin.compact.tmp");
    assert_eq!(compact_file_name(None, 7), "cache-7.compact.tmp");
}
