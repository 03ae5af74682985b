use engine_skiplist::table::KeyBound;
use engine_skiplist::{
    Error, IterOptions, ReadOptions, SeekKey, SkiplistEngine, SkiplistEngineBuilder,
    SkiplistWriteBatch, WriteOptions, CF_DEFAULT,
};

fn new_engine() -> SkiplistEngine {
    SkiplistEngineBuilder::new().build()
}

fn collect(engine: &SkiplistEngine, lower: Option<&[u8]>, upper: Option<&[u8]>) -> Vec<(Vec<u8>, Vec<u8>)> {
    let opts = IterOptions::new(lower.map(|k| k.to_vec()), upper.map(|k| k.to_vec()), true);
    let mut it = engine.iterator_opt(opts).unwrap();
    let mut out = Vec::new();
    let mut valid = it.valid().unwrap();
    while valid {
        out.push((it.key().to_vec(), it.value().to_vec()));
        valid = it.next().unwrap();
    }
    out
}

#[test]
fn test_get_engine() {
    let engine = SkiplistEngineBuilder::new().build();
    let _ = engine.get_cf_engine(CF_DEFAULT);
}

#[test]
fn default_family_exists_when_no_name_is_given() {
    let engine = new_engine();
    assert!(engine.get_cf_engine(CF_DEFAULT).is_ok());
    assert_eq!(engine.cf_names(), vec!["default".to_string()]);
    assert_eq!(engine.total_bytes(), 0);
}

#[test]
fn named_families_replace_the_default() {
    let engine = SkiplistEngineBuilder::new().cf_names(&["lock", "write", "lock"]).build();
    assert_eq!(engine.cf_names(), vec!["lock".to_string(), "write".to_string()]);
    assert!(engine.get_cf_engine("lock").is_ok());
    assert!(matches!(engine.get_cf_engine(CF_DEFAULT), Err(Error::CFName(n)) if n == "default"));
    assert_eq!(engine.get_value(b"k"), Err(Error::CFName("default".to_string())));
}

#[test]
fn handles_carry_distinct_sequence_numbers() {
    let engine = SkiplistEngineBuilder::new().cf_names(&["a", "b", "c"]).seq_no_start(7).build();
    assert_eq!(engine.cf_handle("a").unwrap().seq_no, 7);
    assert_eq!(engine.cf_handle("b").unwrap().seq_no, 8);
    assert_eq!(engine.cf_handle("c").unwrap().seq_no, 9);
    assert_eq!(engine.cf_handle("c").unwrap().cf_name, "c");
    assert!(matches!(engine.cf_handle("d"), Err(Error::CFName(n)) if n == "d"));
}

#[test]
fn sequence_numbers_wrap_around() {
    let engine = SkiplistEngineBuilder::new().cf_names(&["a", "b"]).seq_no_start(usize::MAX).build();
    assert_eq!(engine.cf_handle("a").unwrap().seq_no, usize::MAX);
    assert_eq!(engine.cf_handle("b").unwrap().seq_no, 0);
}

#[test]
fn basic_put_get() {
    let mut engine = new_engine();
    engine.put(b"k", b"v").unwrap();
    assert_eq!(engine.get_value(b"k").unwrap(), Some(b"v".to_vec()));
    assert_eq!(engine.total_bytes(), 2);
}

#[test]
fn overwrite_counts_the_new_value_only() {
    let mut engine = new_engine();
    engine.put(b"k", b"v1").unwrap();
    assert_eq!(engine.total_bytes(), 3);
    engine.put(b"k", b"longer").unwrap();
    assert_eq!(engine.get_value(b"k").unwrap(), Some(b"longer".to_vec()));
    assert_eq!(engine.total_bytes(), 7);
}

#[test]
fn put_twice_is_put_once() {
    let mut engine = new_engine();
    engine.put(b"k", b"v").unwrap();
    engine.put(b"k", b"v").unwrap();
    assert_eq!(engine.get_value(b"k").unwrap(), Some(b"v".to_vec()));
    assert_eq!(engine.total_bytes(), 2);
    assert_eq!(collect(&engine, None, None).len(), 1);
}

#[test]
fn empty_value_is_stored() {
    let mut engine = new_engine();
    engine.put(b"key", b"").unwrap();
    assert_eq!(engine.get_value(b"key").unwrap(), Some(Vec::new()));
    assert_eq!(engine.total_bytes(), 3);
}

#[test]
fn get_of_absent_key_is_none() {
    let engine = new_engine();
    assert_eq!(engine.get_value(b"nothing").unwrap(), None);
    assert_eq!(engine.get_value_opt(&ReadOptions::new(), b"nothing").unwrap(), None);
}

#[test]
fn delete_removes_and_uncounts() {
    let mut engine = new_engine();
    engine.put(b"a", b"12").unwrap();
    engine.put(b"b", b"345").unwrap();
    assert_eq!(engine.total_bytes(), 7);
    engine.delete(b"a").unwrap();
    assert_eq!(engine.get_value(b"a").unwrap(), None);
    assert_eq!(engine.get_value(b"b").unwrap(), Some(b"345".to_vec()));
    assert_eq!(engine.total_bytes(), 4);
}

#[test]
fn delete_twice_is_delete_once() {
    let mut engine = new_engine();
    engine.put(b"a", b"12").unwrap();
    engine.put(b"b", b"3").unwrap();
    engine.delete(b"a").unwrap();
    let counted = engine.total_bytes();
    assert_eq!(engine.delete(b"a"), Ok(()));
    assert_eq!(engine.total_bytes(), counted);
    assert_eq!(engine.total_bytes(), 2);
    assert_eq!(engine.get_value(b"a").unwrap(), None);
}

#[test]
fn writes_to_an_unknown_family_fail_and_change_nothing() {
    let mut engine = new_engine();
    assert_eq!(engine.put_cf("nope", b"k", b"v"), Err(Error::CFName("nope".to_string())));
    assert_eq!(engine.delete_cf("nope", b"k"), Err(Error::CFName("nope".to_string())));
    assert_eq!(engine.delete_range_cf("nope", b"a", b"z"), Err(Error::CFName("nope".to_string())));
    assert_eq!(engine.get_value_cf("nope", b"k"), Err(Error::CFName("nope".to_string())));
    assert!(engine.iterator_cf("nope").is_err());
    assert_eq!(engine.total_bytes(), 0);
}

#[test]
fn families_are_apart() {
    let mut engine = SkiplistEngineBuilder::new().cf_names(&["default", "lock"]).build();
    engine.put_cf("lock", b"k", b"locked").unwrap();
    engine.put(b"k", b"v").unwrap();
    assert_eq!(engine.get_value_cf("lock", b"k").unwrap(), Some(b"locked".to_vec()));
    assert_eq!(engine.get_value(b"k").unwrap(), Some(b"v".to_vec()));
    assert_eq!(engine.total_bytes(), 9);
    engine.delete_cf("lock", b"k").unwrap();
    assert_eq!(engine.get_value(b"k").unwrap(), Some(b"v".to_vec()));
    assert_eq!(engine.total_bytes(), 2);
}

#[test]
fn delete_range_is_half_open() {
    let mut engine = new_engine();
    for k in [b"a", b"b", b"c", b"d"] {
        engine.put(k, b"xx").unwrap();
    }
    assert_eq!(engine.total_bytes(), 12);
    engine.delete_range_cf(CF_DEFAULT, b"b", b"d").unwrap();
    assert_eq!(engine.get_value(b"a").unwrap(), Some(b"xx".to_vec()));
    assert_eq!(engine.get_value(b"b").unwrap(), None);
    assert_eq!(engine.get_value(b"c").unwrap(), None);
    assert_eq!(engine.get_value(b"d").unwrap(), Some(b"xx".to_vec()));
    assert_eq!(engine.total_bytes(), 6);
}

#[test]
fn delete_range_without_entries_in_it_changes_nothing() {
    let mut engine = new_engine();
    engine.put(b"a", b"1").unwrap();
    engine.put(b"z", b"2").unwrap();
    assert_eq!(engine.delete_range_cf(CF_DEFAULT, b"m", b"n"), Ok(()));
    assert_eq!(engine.delete_range_cf(CF_DEFAULT, b"n", b"m"), Ok(()));
    assert_eq!(collect(&engine, None, None), vec![(b"a".to_vec(), b"1".to_vec()), (b"z".to_vec(), b"2".to_vec())]);
    assert_eq!(engine.total_bytes(), 4);
}

#[test]
fn range_iteration() {
    let mut engine = new_engine();
    engine.put(b"a", b"1").unwrap();
    engine.put(b"b", b"2").unwrap();
    engine.put(b"c", b"3").unwrap();
    assert_eq!(
        collect(&engine, Some(b"a"), Some(b"b")),
        vec![(b"a".to_vec(), b"1".to_vec()), (b"b".to_vec(), b"2".to_vec())]
    );
}

#[test]
fn iteration_is_in_key_order_whatever_the_order_of_writes() {
    let mut engine = new_engine();
    for k in [&b"b"[..], &b"ab"[..], &b"a"[..], &b"\xff"[..], &b"aa"[..], &b"c"[..]] {
        engine.put(k, k).unwrap();
    }
    engine.delete(b"c").unwrap();
    let keys: Vec<Vec<u8>> = collect(&engine, None, None).into_iter().map(|e| e.0).collect();
    assert_eq!(keys, vec![b"a".to_vec(), b"aa".to_vec(), b"ab".to_vec(), b"b".to_vec(), b"\xff".to_vec()]);
    let keys: Vec<Vec<u8>> = collect(&engine, Some(b"aa"), Some(b"b")).into_iter().map(|e| e.0).collect();
    assert_eq!(keys, vec![b"aa".to_vec(), b"ab".to_vec(), b"b".to_vec()]);
}

#[test]
fn iterator_on_empty_family_is_invalid_at_once() {
    let engine = new_engine();
    let mut it = engine.iterator().unwrap();
    assert_eq!(it.valid(), Ok(false));
    assert_eq!(it.key(), b"");
    assert_eq!(it.value(), b"");
    assert_eq!(it.next(), Ok(false));
    assert_eq!(it.prev(), Ok(false));
    assert_eq!(it.seek(SeekKey::Start), Ok(false));
    assert_eq!(it.seek(SeekKey::End), Ok(false));
    assert_eq!(it.seek(SeekKey::Key(b"a")), Ok(false));
}

#[test]
fn seeks_place_the_cursor() {
    let mut engine = new_engine();
    for k in [b"b", b"d", b"f", b"h"] {
        engine.put(k, b"v").unwrap();
    }
    let opts = IterOptions::new(Some(b"c".to_vec()), Some(b"g".to_vec()), true);
    let mut it = engine.iterator_opt(opts).unwrap();
    assert_eq!(it.valid(), Ok(true));
    assert_eq!(it.key(), b"d");
    assert_eq!(it.seek(SeekKey::End), Ok(true));
    assert_eq!(it.key(), b"f");
    assert_eq!(it.seek(SeekKey::Start), Ok(true));
    assert_eq!(it.key(), b"d");
    assert_eq!(it.seek(SeekKey::Key(b"e")), Ok(true));
    assert_eq!(it.key(), b"f");
    assert_eq!(it.seek(SeekKey::Key(b"a")), Ok(true));
    assert_eq!(it.key(), b"d");
    assert_eq!(it.seek(SeekKey::Key(b"d")), Ok(true));
    assert_eq!(it.key(), b"d");
    assert_eq!(it.seek(SeekKey::Key(b"g")), Ok(false));
    assert_eq!(it.key(), b"");
    assert_eq!(it.seek_for_prev(SeekKey::Key(b"e")), Ok(true));
    assert_eq!(it.key(), b"d");
    assert_eq!(it.seek_for_prev(SeekKey::Key(b"z")), Ok(true));
    assert_eq!(it.key(), b"f");
    assert_eq!(it.seek_for_prev(SeekKey::Key(b"f")), Ok(true));
    assert_eq!(it.key(), b"f");
    assert_eq!(it.seek_for_prev(SeekKey::Key(b"c")), Ok(false));
    assert_eq!(it.valid(), Ok(false));
}

#[test]
fn cursor_steps_both_ways_and_stays_invalid_past_the_ends() {
    let mut engine = new_engine();
    engine.put(b"a", b"1").unwrap();
    engine.put(b"b", b"2").unwrap();
    engine.put(b"c", b"3").unwrap();
    let mut it = engine.iterator().unwrap();
    assert_eq!(it.key(), b"a");
    assert_eq!(it.next(), Ok(true));
    assert_eq!((it.key(), it.value()), (&b"b"[..], &b"2"[..]));
    assert_eq!(it.prev(), Ok(true));
    assert_eq!(it.key(), b"a");
    assert_eq!(it.prev(), Ok(false));
    assert_eq!(it.next(), Ok(false));
    assert_eq!(it.seek(SeekKey::End), Ok(true));
    assert_eq!(it.key(), b"c");
    assert_eq!(it.next(), Ok(false));
    assert_eq!(it.valid(), Ok(false));
}

#[test]
fn engine_seek_finds_the_first_key_not_below() {
    let mut engine = new_engine();
    engine.put(b"b", b"1").unwrap();
    engine.put(b"d", b"2").unwrap();
    assert_eq!(engine.seek(b"a").unwrap(), Some((b"b".to_vec(), b"1".to_vec())));
    assert_eq!(engine.seek(b"b").unwrap(), Some((b"b".to_vec(), b"1".to_vec())));
    assert_eq!(engine.seek(b"c").unwrap(), Some((b"d".to_vec(), b"2".to_vec())));
    assert_eq!(engine.seek(b"e").unwrap(), None);
}

#[test]
fn snapshot_reads_what_the_engine_holds() {
    let mut engine = new_engine();
    engine.put(b"a", b"1").unwrap();
    engine.put(b"b", b"2").unwrap();
    let snap = engine.snapshot();
    assert_eq!(snap.get_value(b"a").unwrap(), Some(b"1".to_vec()));
    assert_eq!(snap.get_value_cf(CF_DEFAULT, b"c").unwrap(), None);
    assert!(snap.get_value_cf("nope", b"a").is_err());
    let mut it = snap.iterator_opt(IterOptions::unbounded()).unwrap();
    assert_eq!(it.key(), b"a");
    assert_eq!(it.next(), Ok(true));
    assert_eq!(it.key(), b"b");
}

#[test]
fn batch_reports_the_bytes_it_holds() {
    let mut batch = SkiplistWriteBatch::with_capacity(64);
    assert!(batch.is_empty());
    assert_eq!(batch.data_size(), 0);
    batch.put(b"key", b"value").unwrap();
    assert_eq!(batch.data_size(), 8);
    batch.delete(b"key").unwrap();
    assert_eq!(batch.data_size(), 11);
    batch.delete_range_cf(CF_DEFAULT, b"a", b"bc").unwrap();
    assert_eq!(batch.data_size(), 14);
    assert_eq!(batch.count(), 3);
    assert!(!batch.is_empty());
    batch.clear();
    assert!(batch.is_empty());
    assert_eq!(batch.data_size(), 0);
}

#[test]
fn batch_is_applied_in_order() {
    let mut engine = new_engine();
    let mut batch = SkiplistWriteBatch::new();
    batch.put(b"a", b"1").unwrap();
    batch.put(b"b", b"2").unwrap();
    batch.delete(b"a").unwrap();
    batch.put(b"b", b"22").unwrap();
    batch.put(b"c", b"3").unwrap();
    engine.write(&batch).unwrap();
    assert_eq!(engine.get_value(b"a").unwrap(), None);
    assert_eq!(engine.get_value(b"b").unwrap(), Some(b"22".to_vec()));
    assert_eq!(engine.get_value(b"c").unwrap(), Some(b"3".to_vec()));
    assert_eq!(engine.total_bytes(), 5);

    let mut one_by_one = new_engine();
    one_by_one.put(b"a", b"1").unwrap();
    one_by_one.put(b"b", b"2").unwrap();
    one_by_one.delete(b"a").unwrap();
    one_by_one.put(b"b", b"22").unwrap();
    one_by_one.put(b"c", b"3").unwrap();
    assert_eq!(collect(&engine, None, None), collect(&one_by_one, None, None));
    assert_eq!(engine.total_bytes(), one_by_one.total_bytes());
}

#[test]
fn batch_with_range_delete() {
    let mut engine = new_engine();
    let mut batch = SkiplistWriteBatch::new();
    batch.put(b"a", b"1").unwrap();
    batch.put(b"b", b"2").unwrap();
    batch.put(b"c", b"3").unwrap();
    batch.delete_range(b"a", b"c").unwrap();
    let mut opts = WriteOptions::new();
    opts.set_sync(true);
    engine.write_opt(&batch, &opts).unwrap();
    assert_eq!(collect(&engine, None, None), vec![(b"c".to_vec(), b"3".to_vec())]);
    assert_eq!(engine.total_bytes(), 2);
}

#[test]
fn batch_stops_at_an_unknown_family() {
    let mut engine = new_engine();
    let mut batch = SkiplistWriteBatch::new();
    batch.put(b"a", b"1").unwrap();
    batch.put_cf("nope", b"b", b"2").unwrap();
    batch.put(b"c", b"3").unwrap();
    assert_eq!(engine.write(&batch), Err(Error::CFName("nope".to_string())));
    assert_eq!(engine.get_value(b"a").unwrap(), Some(b"1".to_vec()));
    assert_eq!(engine.get_value(b"c").unwrap(), None);
    assert_eq!(engine.total_bytes(), 2);
}

#[test]
fn sync_and_compaction_do_nothing() {
    let mut engine = new_engine();
    engine.put(b"a", b"1").unwrap();
    assert_eq!(engine.sync(), Ok(()));
    assert_eq!(engine.auto_compactions_is_disabled(), Ok(true));
    assert_eq!(engine.compact_range(CF_DEFAULT, Some(b"a"), None, false, 1), Ok(()));
    assert_eq!(engine.compact_range("nope", None, None, true, 4), Ok(()));
    assert_eq!(engine.compact_files_in_range(None, Some(b"z"), Some(1)), Ok(()));
    assert_eq!(engine.compact_files_in_range_cf(CF_DEFAULT, None, None, None), Ok(()));
    assert_eq!(engine.get_value(b"a").unwrap(), Some(b"1".to_vec()));
    assert_eq!(engine.total_bytes(), 2);
}

#[test]
fn options_keep_what_they_are_given() {
    let mut r = ReadOptions::new();
    assert!(r.fill_cache());
    r.set_fill_cache(false);
    assert!(!r.fill_cache());
    let mut w = WriteOptions::new();
    assert!(!w.sync());
    w.set_sync(true);
    assert!(w.sync());
    let mut o = IterOptions::unbounded();
    assert_eq!(o.lower_bound(), None);
    assert_eq!(o.upper_bound(), None);
    o.set_lower_bound(b"a");
    o.set_upper_bound(b"z");
    o.set_fill_cache(false);
    assert_eq!(o.lower_bound(), Some(&b"a"[..]));
    assert_eq!(o.upper_bound(), Some(&b"z"[..]));
    assert!(!o.fill_cache());
}

#[test]
fn error_messages_name_the_failure() {
    assert_eq!(Error::CFName("lock".to_string()).message(), "CF lock not found");
    assert_eq!(Error::Engine("broken".to_string()).message(), "Engine broken");
    assert_eq!(Error::Codec("bad".to_string()).message(), "Codec bad");
    assert_eq!(Error::Unavailable.message(), "log temporarily unavailable");
}

#[test]
fn collect_rest_walks_to_the_end_of_the_interval() {
    let mut engine = new_engine();
    for k in [b"a", b"b", b"c", b"d"] {
        engine.put(k, b"v").unwrap();
    }
    let opts = IterOptions::new(Some(b"b".to_vec()), Some(b"c".to_vec()), true);
    let mut it = engine.iterator_opt(opts).unwrap();
    assert_eq!(it.collect_rest(), vec![(b"b".to_vec(), b"v".to_vec()), (b"c".to_vec(), b"v".to_vec())]);
    assert_eq!(it.valid(), Ok(false));
    assert!(it.collect_rest().is_empty());
    assert_eq!(it.seek(SeekKey::Key(b"c")), Ok(true));
    assert_eq!(it.collect_rest(), vec![(b"c".to_vec(), b"v".to_vec())]);
    let inverted = IterOptions::new(Some(b"c".to_vec()), Some(b"b".to_vec()), true);
    assert_eq!(engine.iterator_opt(inverted).unwrap().valid(), Ok(false));
}

#[test]
fn batch_keeps_the_capacity_it_was_made_with() {
    assert_eq!(SkiplistWriteBatch::new().capacity(), 0);
    let mut batch = SkiplistWriteBatch::with_capacity(64);
    assert_eq!(batch.capacity(), 64);
    batch.put(b"key", b"value").unwrap();
    batch.delete(b"key").unwrap();
    assert_eq!(batch.capacity(), 64);
    batch.clear();
    assert_eq!(batch.capacity(), 64);
    assert_eq!(SkiplistWriteBatch::with_capacity(usize::MAX).capacity(), usize::MAX);
}

#[test]
fn default_options_are_the_new_ones() {
    assert!(ReadOptions::default().fill_cache());
    assert!(!WriteOptions::default().sync());
    let o = IterOptions::default();
    assert_eq!(o.lower_bound(), None);
    assert_eq!(o.upper_bound(), None);
    assert!(o.fill_cache());
}

#[test]
fn table_handle_reads_the_family() {
    let mut engine = new_engine();
    engine.put(b"b", b"1").unwrap();
    engine.put(b"d", b"2").unwrap();
    let table = engine.get_cf_engine(CF_DEFAULT).unwrap();
    assert_eq!(table.get(b"b"), Some(b"1".to_vec()));
    assert_eq!(table.get(b"c"), None);
    assert_eq!(
        table.first_entry_in(KeyBound::Excluded(b"b"), KeyBound::Unbounded),
        Some((b"d".to_vec(), b"2".to_vec()))
    );
    assert_eq!(
        table.last_entry_in(KeyBound::Unbounded, KeyBound::Excluded(b"d")),
        Some((b"b".to_vec(), b"1".to_vec()))
    );
    assert_eq!(table.first_entry_in(KeyBound::Included(b"e"), KeyBound::Unbounded), None);
}
