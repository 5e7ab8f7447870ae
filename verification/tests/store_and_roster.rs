//! The key-share store and the roster rule, on concrete values.
use bls_blueprint::keygen::{resolve_party_index, KeygenError};
use bls_blueprint::keygen_state_machine::BlsState;
use bls_blueprint::signing_state_machine::BlsSigningState;
use bls_blueprint::store::ShareStore;

fn state(call_id: u64, t: u16, sk: u8, pk: u8) -> BlsState {
    BlsState {
        secret_key_bytes: Some(vec![sk; 32]),
        uncompressed_pk: Some(vec![pk; 97]),
        call_id,
        t,
    }
}

#[test]
fn store_returns_what_was_written() {
    let mut store = ShareStore::new();
    let key = b"abc123".to_vec();
    store.set(key.clone(), state(1, 2, 0x11, 0x22));
    let got = store.get(&key).expect("present");
    assert_eq!(got.secret_key_bytes, Some(vec![0x11; 32]));
    assert_eq!(got.uncompressed_pk, Some(vec![0x22; 97]));
    assert_eq!(got.call_id, 1);
    assert_eq!(got.t, 2);
}

#[test]
fn store_misses_unknown_keys() {
    let mut store = ShareStore::new();
    assert!(store.get(&b"nothing".to_vec()).is_none());
    store.set(b"aa".to_vec(), state(1, 2, 1, 2));
    assert!(store.get(&b"ab".to_vec()).is_none());
}

#[test]
fn store_overwrite_takes_the_latest_value() {
    let mut store = ShareStore::new();
    let key = b"k".to_vec();
    store.set(key.clone(), state(1, 2, 0x01, 0x02));
    store.set(key.clone(), state(9, 3, 0x03, 0x04));
    let got = store.get(&key).expect("present");
    assert_eq!(got.call_id, 9);
    assert_eq!(got.t, 3);
    assert_eq!(got.secret_key_bytes, Some(vec![0x03; 32]));
}

#[test]
fn store_keys_do_not_interfere() {
    let mut store = ShareStore::new();
    store.set(b"one".to_vec(), state(1, 2, 0x01, 0x02));
    store.set(b"two".to_vec(), state(2, 3, 0x05, 0x06));
    assert_eq!(store.get(&b"one".to_vec()).unwrap().call_id, 1);
    assert_eq!(store.get(&b"two".to_vec()).unwrap().call_id, 2);
}

#[test]
fn default_states_are_empty() {
    let st = BlsState::default();
    assert!(st.secret_key_bytes.is_none());
    assert!(st.uncompressed_pk.is_none());
    assert_eq!(st.call_id, 0);
    assert_eq!(st.t, 0);

    let sess = BlsSigningState::default();
    assert!(sess.secret_key.is_none());
    assert!(sess.signature.is_none());
    assert!(sess.received_shares().is_empty());
}

#[test]
fn roster_index_is_the_sorted_position() {
    let a = b"alpha".to_vec();
    let b = b"beta".to_vec();
    let c = b"gamma".to_vec();
    // The list arrives unsorted; the index is the lexicographic rank.
    let peers = vec![c.clone(), a.clone(), b.clone()];
    assert_eq!(resolve_party_index(&peers, &a).unwrap(), (0, 3));
    assert_eq!(resolve_party_index(&peers, &b).unwrap(), (1, 3));
    assert_eq!(resolve_party_index(&peers, &c).unwrap(), (2, 3));
}

#[test]
fn roster_rejects_a_missing_local_peer() {
    let peers = vec![b"alpha".to_vec(), b"beta".to_vec()];
    let err = resolve_party_index(&peers, &b"other".to_vec()).expect_err("absent");
    assert!(matches!(err, KeygenError::ContextError(_)));
}

#[test]
fn roster_rejects_a_cohort_of_one() {
    let only = b"alone".to_vec();
    let peers = vec![only.clone()];
    let err = resolve_party_index(&peers, &only).expect_err("too small");
    assert!(matches!(err, KeygenError::ContextError(_)));
}
