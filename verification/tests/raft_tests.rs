use engine_skiplist::keys::{raft_log_key, raft_state_key};
use engine_skiplist::{
    Entry, EntryType, Error, HardState, RaftLocalState, SkiplistEngine, SkiplistEngineBuilder,
    SkiplistWriteBatch, MAX_DELETE_BATCH_SIZE,
};

fn new_engine() -> SkiplistEngine {
    SkiplistEngineBuilder::new().build()
}

fn entry(index: u64) -> Entry {
    Entry {
        entry_type: EntryType::EntryNormal,
        term: 3,
        index,
        data: vec![1, 2, 3, 4],
        context: Vec::new(),
        sync_log: false,
    }
}

fn entries(from: u64, to_inclusive: u64) -> Vec<Entry> {
    (from..=to_inclusive).map(entry).collect()
}

fn indices(buf: &[Entry]) -> Vec<u64> {
    buf.iter().map(|e| e.index).collect()
}

#[test]
fn append_and_fetch_small() {
    let mut engine = new_engine();
    engine.append(7, entries(1, 5)).unwrap();
    let mut out = Vec::new();
    assert_eq!(engine.fetch_entries_to(7, 1, 6, None, &mut out), Ok(5));
    assert_eq!(indices(&out), vec![1, 2, 3, 4, 5]);
    assert_eq!(out, entries(1, 5));
}

#[test]
fn fetch_appends_behind_what_the_buffer_holds() {
    let mut engine = new_engine();
    engine.append(7, entries(1, 5)).unwrap();
    let mut out = vec![entry(99)];
    assert_eq!(engine.fetch_entries_to(7, 2, 4, None, &mut out), Ok(2));
    assert_eq!(indices(&out), vec![99, 2, 3]);
}

#[test]
fn fetch_of_empty_range_takes_nothing() {
    let mut engine = new_engine();
    engine.append(7, entries(1, 5)).unwrap();
    let mut out = Vec::new();
    assert_eq!(engine.fetch_entries_to(7, 3, 3, None, &mut out), Ok(0));
    assert!(out.is_empty());
    assert_eq!(engine.fetch_entries_to(7, 4, 3, None, &mut out), Ok(0));
    assert!(out.is_empty());
}

#[test]
fn fetch_with_gap() {
    let mut engine = new_engine();
    engine.append(7, entries(10, 20)).unwrap();
    let mut out = Vec::new();
    assert_eq!(engine.fetch_entries_to(7, 5, 9, None, &mut out), Err(Error::Unavailable));
    assert!(out.is_empty());
    assert_eq!(engine.fetch_entries_to(7, 5, 25, None, &mut out), Ok(0));
    assert!(out.is_empty());
}

#[test]
fn small_fetch_keeps_what_it_took_before_the_gap() {
    let mut engine = new_engine();
    engine.append(7, entries(1, 3)).unwrap();
    let mut out = Vec::new();
    assert_eq!(engine.fetch_entries_to(7, 2, 6, None, &mut out), Err(Error::Unavailable));
    assert_eq!(indices(&out), vec![2, 3]);
}

#[test]
fn fetch_large() {
    let mut engine = new_engine();
    engine.append(7, entries(1, 100)).unwrap();
    engine.append(8, entries(1, 100)).unwrap();
    let mut out = Vec::new();
    assert_eq!(engine.fetch_entries_to(7, 10, 60, None, &mut out), Ok(50));
    assert_eq!(indices(&out), (10..60).collect::<Vec<u64>>());
}

#[test]
fn large_fetch_short_of_entries_is_unavailable() {
    let mut engine = new_engine();
    engine.append(7, entries(1, 20)).unwrap();
    let mut out = Vec::new();
    assert_eq!(engine.fetch_entries_to(7, 1, 31, None, &mut out), Err(Error::Unavailable));
    assert_eq!(indices(&out), (1..=20).collect::<Vec<u64>>());
    let mut none = Vec::new();
    assert_eq!(engine.fetch_entries_to(9, 1, 31, None, &mut none), Err(Error::Unavailable));
    assert!(none.is_empty());
}

#[test]
fn fetch_stops_at_the_size_limit() {
    let mut engine = new_engine();
    engine.append(7, entries(1, 100)).unwrap();
    let one = engine.get_value(&raft_log_key(7, 1)).unwrap().unwrap().len();
    assert!(one > 4);
    let mut out = Vec::new();
    assert_eq!(engine.fetch_entries_to(7, 1, 5, Some(2 * one), &mut out), Ok(2));
    assert_eq!(indices(&out), vec![1, 2]);
    out.clear();
    assert_eq!(engine.fetch_entries_to(7, 1, 5, Some(2 * one + 1), &mut out), Ok(3));
    out.clear();
    assert_eq!(engine.fetch_entries_to(7, 1, 5, Some(0), &mut out), Ok(1));
    assert_eq!(indices(&out), vec![1]);
    out.clear();
    assert_eq!(engine.fetch_entries_to(7, 1, 50, Some(3 * one), &mut out), Ok(3));
    assert_eq!(indices(&out), vec![1, 2, 3]);
    out.clear();
    assert_eq!(engine.fetch_entries_to(7, 1, 50, Some(0), &mut out), Ok(1));
    out.clear();
    assert_eq!(engine.fetch_entries_to(9, 1, 50, Some(0), &mut out), Ok(0));
}

#[test]
fn fetch_fails_on_bytes_that_are_no_entry() {
    let mut engine = new_engine();
    engine.append(7, entries(1, 3)).unwrap();
    engine.put(&raft_log_key(7, 2), &[0xff, 0xff, 0xff]).unwrap();
    let mut out = Vec::new();
    assert!(matches!(engine.fetch_entries_to(7, 1, 4, None, &mut out), Err(Error::Codec(_))));
    assert_eq!(indices(&out), vec![1]);
    assert!(matches!(engine.get_entry(7, 2), Err(Error::Codec(_))));
}

#[test]
fn checked_fetch_refuses_a_misnumbered_log() {
    let mut engine = new_engine();
    engine.append(7, entries(1, 3)).unwrap();
    let stored = engine.get_value(&raft_log_key(7, 3)).unwrap().unwrap();
    engine.put(&raft_log_key(7, 2), &stored).unwrap();
    let mut out = Vec::new();
    assert!(!engine.fetch_is_numbered(7, 1, 4, None));
    assert_eq!(engine.fetch_entries_checked(7, 1, 4, None, &mut out), None);
    assert!(out.is_empty());
    assert!(engine.fetch_is_numbered(7, 1, 2, None));
    assert_eq!(engine.fetch_entries_checked(7, 1, 2, None, &mut out), Some(Ok(1)));
    assert_eq!(indices(&out), vec![1]);
}

#[test]
fn checked_fetch_on_a_numbered_log_is_the_fetch() {
    let mut engine = new_engine();
    engine.append(7, entries(10, 20)).unwrap();
    let mut out = Vec::new();
    assert_eq!(engine.fetch_entries_checked(7, 5, 9, None, &mut out), Some(Err(Error::Unavailable)));
    assert_eq!(engine.fetch_entries_checked(7, 5, 25, None, &mut out), Some(Ok(0)));
    assert_eq!(engine.fetch_entries_checked(7, 10, 21, None, &mut out), Some(Ok(11)));
    assert_eq!(indices(&out), (10..=20).collect::<Vec<u64>>());
}

#[test]
fn fetch_without_the_default_family_names_it() {
    let engine = SkiplistEngineBuilder::new().cf_names(&["lock"]).build();
    let mut out = Vec::new();
    assert_eq!(engine.fetch_entries_to(7, 1, 3, None, &mut out), Err(Error::CFName("default".to_string())));
    assert_eq!(engine.get_entry(7, 1), Err(Error::CFName("default".to_string())));
    assert_eq!(engine.get_raft_state(7), Err(Error::CFName("default".to_string())));
}

#[test]
fn get_entry_reads_one_entry() {
    let mut engine = new_engine();
    let mut e = entry(4);
    e.entry_type = EntryType::EntryConfChangeV2;
    e.context = vec![9, 9];
    e.sync_log = true;
    e.term = u64::MAX;
    assert!(engine.append_slice(7, &[e.clone()]).unwrap() > 18);
    assert_eq!(engine.get_entry(7, 4), Ok(Some(e)));
    assert_eq!(engine.get_entry(7, 5), Ok(None));
    assert_eq!(engine.get_entry(8, 4), Ok(None));
}

#[test]
fn append_returns_the_bytes_written() {
    let mut engine = new_engine();
    let n = engine.append(7, entries(1, 5)).unwrap();
    assert_eq!(n, engine.total_bytes());
    let one = engine.get_value(&raft_log_key(7, 1)).unwrap().unwrap().len();
    assert_eq!(n, 5 * (18 + one));
    assert_eq!(engine.append(7, Vec::new()), Ok(0));
}

#[test]
fn append_overwrites_entries_at_the_same_index() {
    let mut engine = new_engine();
    engine.append(7, entries(1, 3)).unwrap();
    let mut e = entry(2);
    e.term = 9;
    engine.append(7, vec![e.clone()]).unwrap();
    assert_eq!(engine.get_entry(7, 2), Ok(Some(e)));
}

#[test]
fn log_gc() {
    let mut engine = new_engine();
    engine.append(7, entries(1, 100)).unwrap();
    assert_eq!(engine.gc(7, 0, 50), Ok(49));
    assert_eq!(engine.get_entry(7, 25), Ok(None));
    assert_eq!(engine.get_entry(7, 1), Ok(None));
    assert_eq!(engine.get_entry(7, 49), Ok(None));
    assert_eq!(engine.get_entry(7, 50), Ok(Some(entry(50))));
    assert_eq!(engine.get_entry(7, 100), Ok(Some(entry(100))));
}

#[test]
fn gc_from_a_given_index() {
    let mut engine = new_engine();
    engine.append(7, entries(1, 20)).unwrap();
    engine.append(8, entries(1, 20)).unwrap();
    assert_eq!(engine.gc(7, 5, 10), Ok(5));
    assert_eq!(engine.get_entry(7, 4), Ok(Some(entry(4))));
    assert_eq!(engine.get_entry(7, 5), Ok(None));
    assert_eq!(engine.get_entry(7, 9), Ok(None));
    assert_eq!(engine.get_entry(7, 10), Ok(Some(entry(10))));
    assert_eq!(engine.get_entry(8, 7), Ok(Some(entry(7))));
}

#[test]
fn gc_on_empty_log_does_nothing() {
    let mut engine = new_engine();
    engine.append(8, entries(1, 5)).unwrap();
    let counted = engine.total_bytes();
    assert_eq!(engine.gc(7, 0, 50), Ok(0));
    assert_eq!(engine.gc(9, 0, 50), Ok(0));
    assert_eq!(engine.total_bytes(), counted);
    assert_eq!(engine.get_entry(8, 1), Ok(Some(entry(1))));
}

#[test]
fn gc_of_an_empty_range_does_nothing() {
    let mut engine = new_engine();
    engine.append(7, entries(1, 5)).unwrap();
    let counted = engine.total_bytes();
    assert_eq!(engine.gc(7, 3, 3), Ok(0));
    assert_eq!(engine.gc(7, 4, 2), Ok(0));
    assert_eq!(engine.total_bytes(), counted);
}

#[test]
fn gc_before_the_first_entry_covers_nothing() {
    let mut engine = new_engine();
    engine.append(7, entries(60, 70)).unwrap();
    let counted = engine.total_bytes();
    assert_eq!(engine.gc(7, 0, 50), Ok(0));
    assert_eq!(engine.total_bytes(), counted);
}

#[test]
fn gc_flushes_large_batches() {
    let mut engine = new_engine();
    let many = (MAX_DELETE_BATCH_SIZE / 18) as u64 * 2 + 10;
    engine.append(7, entries(1, many)).unwrap();
    assert_eq!(engine.gc(7, 1, many), Ok((many - 1) as usize));
    assert_eq!(engine.get_entry(7, many - 1), Ok(None));
    assert_eq!(engine.get_entry(7, many), Ok(Some(entry(many))));
    assert_eq!(engine.seek(&raft_log_key(7, 0)).unwrap().unwrap().0, raft_log_key(7, many));
}

#[test]
fn gc_fails_on_a_log_key_too_short() {
    let mut engine = new_engine();
    let mut key = engine_skiplist::keys::raft_log_prefix(7);
    key.push(1);
    engine.put(&key, b"x").unwrap();
    assert!(matches!(engine.gc(7, 0, 5), Err(Error::Codec(_))));
    assert_eq!(engine.get_value(&key).unwrap(), Some(b"x".to_vec()));
}

#[test]
fn raft_state_round_trip() {
    let mut engine = new_engine();
    assert_eq!(engine.get_raft_state(7), Ok(None));
    let state = RaftLocalState {
        hard_state: HardState { term: 5, vote: 2, commit: u64::MAX },
        last_index: 1 << 40,
    };
    engine.put_raft_state(7, &state).unwrap();
    assert_eq!(engine.get_raft_state(7), Ok(Some(state)));
    assert_eq!(engine.get_raft_state(8), Ok(None));
    assert_eq!(RaftLocalState::decode(&state.encode()), Ok(state));
    assert_eq!(state.encode().len(), 32);
    assert_eq!(RaftLocalState::decode(&RaftLocalState::new().encode()), Ok(RaftLocalState::new()));
    assert_eq!(state.encode()[..8], [0, 0, 0, 0, 0, 0, 0, 5]);
}

#[test]
fn raft_state_of_wrong_length_is_refused() {
    let mut engine = new_engine();
    engine.put(&raft_state_key(7), b"short").unwrap();
    assert!(matches!(engine.get_raft_state(7), Err(Error::Codec(_))));
    assert!(matches!(RaftLocalState::decode(&[0u8; 33]), Err(Error::Codec(_))));
}

#[test]
fn consume_applies_and_clears() {
    let mut engine = new_engine();
    let mut batch = engine.log_batch(128);
    batch.append(7, entries(1, 3)).unwrap();
    let size = batch.data_size();
    assert!(size > 0);
    assert_eq!(engine.consume(&mut batch, true), Ok(size));
    assert!(batch.is_empty());
    assert_eq!(batch.data_size(), 0);
    assert_eq!(engine.get_entry(7, 2), Ok(Some(entry(2))));
    batch.append_slice(7, &entries(4, 5)).unwrap();
    let size = batch.data_size();
    assert_eq!(engine.consume_and_shrink(&mut batch, false, 1, 16), Ok(size));
    assert!(batch.is_empty());
    assert_eq!(engine.get_entry(7, 5), Ok(Some(entry(5))));
}

#[test]
fn consume_leaves_a_failed_batch_as_it_is() {
    let mut engine = new_engine();
    let mut batch = SkiplistWriteBatch::new();
    batch.put_cf("nope", b"k", b"v").unwrap();
    assert_eq!(engine.consume(&mut batch, false), Err(Error::CFName("nope".to_string())));
    assert_eq!(batch.count(), 1);
    assert_eq!(batch.data_size(), 2);
}

#[test]
fn cut_logs_stages_deletes() {
    let mut engine = new_engine();
    engine.append(7, entries(1, 10)).unwrap();
    let mut batch = SkiplistWriteBatch::new();
    batch.cut_logs(7, 4, 8);
    assert_eq!(batch.count(), 4);
    assert_eq!(batch.data_size(), 4 * 18);
    batch.cut_logs(7, 8, 8);
    batch.cut_logs(7, 9, 2);
    assert_eq!(batch.count(), 4);
    engine.write(&batch).unwrap();
    assert_eq!(engine.get_entry(7, 3), Ok(Some(entry(3))));
    assert_eq!(engine.get_entry(7, 4), Ok(None));
    assert_eq!(engine.get_entry(7, 7), Ok(None));
    assert_eq!(engine.get_entry(7, 8), Ok(Some(entry(8))));
}

#[test]
fn batch_put_raft_state_is_staged() {
    let mut engine = new_engine();
    let mut batch = SkiplistWriteBatch::new();
    let state = RaftLocalState { hard_state: HardState { term: 1, vote: 1, commit: 1 }, last_index: 9 };
    batch.put_raft_state(7, &state).unwrap();
    assert_eq!(batch.data_size(), 10 + 32);
    assert_eq!(engine.get_raft_state(7), Ok(None));
    engine.write(&batch).unwrap();
    assert_eq!(engine.get_raft_state(7), Ok(Some(state)));
}

#[test]
fn clean_stages_the_removal_of_state_and_log() {
    let mut engine = new_engine();
    engine.append(7, entries(3, 10)).unwrap();
    engine.append(8, entries(1, 2)).unwrap();
    let state = RaftLocalState { hard_state: HardState { term: 1, vote: 1, commit: 1 }, last_index: 10 };
    engine.put_raft_state(7, &state).unwrap();
    let mut batch = SkiplistWriteBatch::new();
    assert_eq!(engine.clean(7, &state, &mut batch), Ok(()));
    assert_eq!(batch.count(), 1 + 8);
    assert_eq!(engine.get_entry(7, 3), Ok(Some(entry(3))));
    engine.write(&batch).unwrap();
    assert_eq!(engine.get_raft_state(7), Ok(None));
    for i in 3..=10 {
        assert_eq!(engine.get_entry(7, i), Ok(None));
    }
    assert_eq!(engine.get_entry(8, 1), Ok(Some(entry(1))));
}

#[test]
fn clean_without_a_log_stages_the_state_only() {
    let mut engine = new_engine();
    engine.append(8, entries(1, 2)).unwrap();
    let state = RaftLocalState { hard_state: HardState { term: 1, vote: 1, commit: 1 }, last_index: 10 };
    let mut batch = SkiplistWriteBatch::new();
    assert_eq!(engine.clean(7, &state, &mut batch), Ok(()));
    assert_eq!(batch.count(), 1);
    let mut batch = SkiplistWriteBatch::new();
    let behind = RaftLocalState { hard_state: HardState { term: 1, vote: 1, commit: 1 }, last_index: 0 };
    assert_eq!(engine.clean(8, &behind, &mut batch), Ok(()));
    assert_eq!(batch.count(), 1);
}

#[test]
fn no_entry_cache() {
    let engine = new_engine();
    assert!(!engine.has_builtin_entry_cache());
    let stats = engine.flush_stats();
    assert_eq!((stats.hit, stats.miss, stats.cache_size), (0, 0, 0));
}

#[test]
fn entries_are_stored_as_protobuf_messages() {
    let mut engine = new_engine();
    engine.append(7, vec![entry(1)]).unwrap();
    assert_eq!(
        engine.get_value(&raft_log_key(7, 1)).unwrap(),
        Some(vec![0x10, 3, 0x18, 1, 0x22, 4, 1, 2, 3, 4])
    );
}

#[test]
fn stored_protobuf_messages_are_read_as_entries() {
    let mut engine = new_engine();
    engine.put(&raft_log_key(7, 300), &[0x08, 1, 0x10, 5, 0x18, 0xac, 0x02, 0x32, 2, 7, 8, 0x28, 1]).unwrap();
    let e = Entry {
        entry_type: EntryType::EntryConfChange,
        term: 5,
        index: 300,
        data: Vec::new(),
        context: vec![7, 8],
        sync_log: true,
    };
    assert_eq!(engine.get_entry(7, 300), Ok(Some(e)));
    let mut out = Vec::new();
    assert_eq!(engine.fetch_entries_to(7, 300, 301, None, &mut out), Ok(1));
    assert_eq!(out[0].context, vec![7, 8]);
}

#[test]
fn log_batch_is_made_for_the_capacity_asked() {
    let engine = new_engine();
    assert_eq!(engine.log_batch(128).capacity(), 128);
    assert_eq!(engine.log_batch(0).capacity(), 0);
    assert!(engine.log_batch(4096).is_empty());
}

#[test]
fn an_oversized_batch_is_replaced_by_one_of_the_size_to_shrink_to() {
    let mut engine = new_engine();
    let mut batch = engine.log_batch(128);
    batch.append(7, entries(1, 3)).unwrap();
    let size = batch.data_size();
    assert_eq!(engine.consume_and_shrink(&mut batch, false, size, 16), Ok(size));
    assert_eq!(batch.capacity(), 128);
    batch.append(7, entries(4, 6)).unwrap();
    let size = batch.data_size();
    assert_eq!(engine.consume_and_shrink(&mut batch, false, size - 1, 16), Ok(size));
    assert_eq!(batch.capacity(), 16);
    assert!(batch.is_empty());
    batch.append(7, entries(7, 7)).unwrap();
    assert!(engine.consume(&mut batch, false).is_ok());
    assert_eq!(batch.capacity(), 16);
}

#[test]
fn fetch_of_empty_range_needs_no_family() {
    let engine = SkiplistEngineBuilder::new().cf_names(&["lock"]).build();
    let mut out = vec![entry(1)];
    assert_eq!(engine.fetch_entries_to(7, 3, 3, None, &mut out), Ok(0));
    assert_eq!(engine.fetch_entries_to(7, 3, 3, Some(0), &mut out), Ok(0));
    assert_eq!(engine.fetch_entries_to(7, 5, 3, Some(10), &mut out), Ok(0));
    assert!(engine.fetch_is_numbered(7, 3, 3, None));
    assert_eq!(engine.fetch_entries_checked(7, 3, 3, None, &mut out), Some(Ok(0)));
    assert_eq!(out, vec![entry(1)]);
    assert_eq!(
        engine.fetch_entries_checked(7, 3, 4, None, &mut out),
        Some(Err(Error::CFName("default".to_string())))
    );
    assert_eq!(out, vec![entry(1)]);
}

#[test]
fn an_entry_too_long_for_a_message_is_refused() {
    let mut engine = new_engine();
    let mut long = entry(2);
    long.data = vec![0u8; engine_skiplist::entry::MAX_ENTRY_PAYLOAD - 1];
    long.context = vec![0u8; 2];
    assert!(!long.fits_message());
    assert!(entry(1).fits_message());
    let batch_of = [entry(1), long];
    assert!(matches!(engine.append_slice(7, &batch_of), Err(Error::Codec(_))));
    assert_eq!(engine.get_entry(7, 1), Ok(None));
    assert_eq!(engine.total_bytes(), 0);
    let mut batch = SkiplistWriteBatch::new();
    assert!(matches!(batch.append_slice(7, &batch_of), Err(Error::Codec(_))));
    assert!(batch.is_empty());
}
