use engine_skiplist::keys::{
    raft_log_index, raft_log_key, raft_log_prefix, raft_state_key, PREPARE_BOOTSTRAP_KEY,
    RAFT_LOG_PREFIX, RAFT_STATE_PREFIX, STORE_IDENT_KEY,
};
use engine_skiplist::lex::{bytes_eq, bytes_lt, starts_with};
use engine_skiplist::Error;

#[test]
fn log_key_layout() {
    let key = raft_log_key(0x0102030405060708, 0x1112131415161718);
    assert_eq!(
        key,
        vec![
            0x01, 0x03, 0x01, 0x02, 0x03, 0x04, 0x05, 0x06, 0x07, 0x08, 0x11, 0x12, 0x13, 0x14,
            0x15, 0x16, 0x17, 0x18
        ]
    );
    assert_eq!(raft_log_prefix(0x0102030405060708), key[..10].to_vec());
    assert!(key.starts_with(&RAFT_LOG_PREFIX));
}

#[test]
fn state_key_layout() {
    assert_eq!(raft_state_key(7), vec![0x01, 0x04, 0, 0, 0, 0, 0, 0, 0, 7]);
    assert!(raft_state_key(7).starts_with(&RAFT_STATE_PREFIX));
}

#[test]
fn reserved_keys_are_apart() {
    assert_ne!(STORE_IDENT_KEY, PREPARE_BOOTSTRAP_KEY);
    assert!(!raft_log_key(0, 0).starts_with(&STORE_IDENT_KEY));
    assert!(!raft_state_key(0).starts_with(&PREPARE_BOOTSTRAP_KEY));
}

#[test]
fn log_index_reads_back_what_log_key_wrote() {
    for g in [0u64, 1, 7, u64::MAX] {
        for i in [0u64, 1, 255, 256, 65535, 1 << 40, u64::MAX - 1, u64::MAX] {
            assert_eq!(raft_log_index(&raft_log_key(g, i)), Ok(i));
        }
    }
}

#[test]
fn log_index_refuses_short_keys() {
    assert!(matches!(raft_log_index(&raft_log_prefix(7)), Err(Error::Codec(_))));
    assert!(matches!(raft_log_index(&raft_log_key(7, 1)[..17]), Err(Error::Codec(_))));
    assert!(matches!(raft_log_index(b""), Err(Error::Codec(_))));
}

#[test]
fn log_index_reads_the_last_eight_octets() {
    let mut key = raft_log_key(7, 1);
    key.push(9);
    assert_eq!(raft_log_index(&key), Ok(256 + 9));
}

#[test]
fn log_keys_sort_like_indices() {
    let indices = [0u64, 1, 2, 255, 256, 257, 65535, 65536, 1 << 32, u64::MAX - 1, u64::MAX];
    for &i in &indices {
        for &j in &indices {
            assert_eq!(raft_log_key(7, i) < raft_log_key(7, j), i < j);
            assert_eq!(bytes_lt(&raft_log_key(7, i), &raft_log_key(7, j)), i < j);
        }
    }
}

#[test]
fn byte_order_is_lexicographic() {
    assert!(bytes_lt(b"", b"a"));
    assert!(!bytes_lt(b"a", b""));
    assert!(!bytes_lt(b"a", b"a"));
    assert!(bytes_lt(b"a", b"aa"));
    assert!(bytes_lt(b"ab", b"b"));
    assert!(bytes_lt(b"\x7f", b"\x80"));
    assert!(!bytes_lt(b"\xff", b"\x00\xff"));
    assert!(bytes_eq(b"abc", b"abc"));
    assert!(!bytes_eq(b"abc", b"abd"));
    assert!(!bytes_eq(b"abc", b"ab"));
    assert!(starts_with(b"abc", b"ab"));
    assert!(starts_with(b"abc", b""));
    assert!(!starts_with(b"ab", b"abc"));
    assert!(!starts_with(b"abc", b"b"));
}
