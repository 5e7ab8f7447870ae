//! End-to-end protocol runs: several parties' engines wired together by an
//! in-process router loop.
use bls_blueprint::keygen::finish_keygen;
use bls_blueprint::keygen_state_machine::{
    bls_keygen_protocol, BlsState, HasRecipient, KeygenEngine, KeygenMsg, KeygenProgress,
    MessageDestination,
};
use bls_blueprint::signing::{load_signing_state, SigningError};
use bls_blueprint::signing_state_machine::{SigningEngine, SigningMsg, SigningProgress};
use bls_blueprint::store::ShareStore;
use sha2::Digest;

/// Runs a full keygen among `n` parties, optionally dropping one
/// point-to-point message (`drop_one`: from, to). Returns each party's
/// final state, or None for parties that never finished.
fn run_keygen(n: u16, t: u16, call_id: u64, drop_one: Option<(u16, u16)>) -> Vec<Option<BlsState>> {
    let mut engines: Vec<KeygenEngine> = Vec::new();
    let mut queue: Vec<(u16, KeygenMsg)> = Vec::new();
    let mut results: Vec<Option<BlsState>> = (0..n).map(|_| None).collect();

    for i in 0..n {
        let (engine, msgs) = bls_keygen_protocol(i, t, n, call_id).expect("engine");
        for m in msgs {
            queue.push((i, m));
        }
        engines.push(engine);
    }

    while let Some((sender, msg)) = queue.pop() {
        let recipients: Vec<u16> = match msg.recipient() {
            MessageDestination::AllParties => (0..n).filter(|j| *j != sender).collect(),
            MessageDestination::OneParty(d) => vec![d],
        };
        for j in recipients {
            if j == sender {
                continue;
            }
            if let Some((df, dt)) = drop_one {
                if sender == df && j == dt {
                    if let KeygenMsg::DkgRound2(_) = &msg {
                        continue;
                    }
                }
            }
            if results[j as usize].is_some() {
                continue;
            }
            match engines[j as usize].handle(msg.clone()).expect("handle") {
                KeygenProgress::NeedMore => {}
                KeygenProgress::Send(more) => {
                    for m in more {
                        queue.push((j, m));
                    }
                }
                KeygenProgress::Finished(more, st) => {
                    for m in more {
                        queue.push((j, m));
                    }
                    results[j as usize] = Some(st);
                }
            }
        }
    }
    results
}

/// Runs a signing session among `n` parties that all hold `states`.
fn run_signing(n: u16, states: &[BlsState], message: &[u8]) -> Vec<Vec<u8>> {
    let msg_vec: Vec<u8> = message.to_vec();
    let mut engines: Vec<SigningEngine> = Vec::new();
    let mut queue: Vec<(u16, SigningMsg)> = Vec::new();
    let mut results: Vec<Option<Vec<u8>>> = (0..n).map(|_| None).collect();

    for i in 0..n {
        let (engine, share) =
            SigningEngine::new(i, n, &states[i as usize], &msg_vec).expect("sign engine");
        queue.push((i, share));
        engines.push(engine);
    }

    while let Some((sender, msg)) = queue.pop() {
        for j in 0..n {
            if j == sender || results[j as usize].is_some() {
                continue;
            }
            match engines[j as usize].handle(msg.clone()).expect("sign handle") {
                SigningProgress::NeedMore => {}
                SigningProgress::Finished(st) => {
                    results[j as usize] = Some(st.signature.expect("signature"));
                }
            }
        }
    }
    results.into_iter().map(|r| r.expect("all parties finish")).collect()
}

fn milagro_verify(pk97: &[u8], message: &[u8], signature: &[u8]) -> bool {
    let digest = sha2::Sha256::digest(message);
    let pk = snowbridge_milagro_bls::PublicKey::from_uncompressed_bytes(&pk97[1..]).expect("pk");
    let sig = snowbridge_milagro_bls::Signature::from_bytes(signature).expect("sig");
    sig.verify(&digest, &pk)
}

#[test]
fn keygen_and_sign_three_parties() {
    let n: u16 = 3;
    let results = run_keygen(n, 2, 7, None);
    let states: Vec<BlsState> = results.into_iter().map(|r| r.expect("finished")).collect();

    let pk0 = states[0].uncompressed_pk.clone().expect("pk");
    assert_eq!(pk0.len(), 97, "uncompressed aggregated key is 97 bytes");
    for st in &states {
        assert_eq!(st.uncompressed_pk.as_deref(), Some(pk0.as_slice()), "all keys byte-equal");
        assert_eq!(st.secret_key_bytes.as_ref().map(|s| s.len()), Some(32));
        assert_eq!(st.call_id, 7);
        assert_eq!(st.t, 2);
    }

    let message = [0x01u8, 0x02, 0x03];
    let signatures = run_signing(n, &states, &message);
    let sig0 = signatures[0].clone();
    assert_eq!(sig0.len(), 96, "compressed aggregate signature is 96 bytes");
    for sig in &signatures {
        assert_eq!(sig, &sig0, "all parties aggregate the same signature");
    }
    assert!(milagro_verify(&pk0, &message, &sig0), "signature verifies under the group key");
    assert!(!milagro_verify(&pk0, &[0x01u8, 0x02, 0x04], &sig0), "wrong message fails");
}

#[test]
fn sign_empty_message_five_parties() {
    let n: u16 = 5;
    let results = run_keygen(n, 3, 9, None);
    let states: Vec<BlsState> = results.into_iter().map(|r| r.expect("finished")).collect();
    let pk = states[0].uncompressed_pk.clone().expect("pk");

    let signatures = run_signing(n, &states, &[]);
    assert!(milagro_verify(&pk, &[], &signatures[0]), "empty message signature verifies");
}

#[test]
fn keygen_with_dropped_p2p_message_cannot_finish() {
    let n: u16 = 3;
    // Party 0's round-2 share to party 2 is lost in transit.
    let results = run_keygen(n, 2, 11, Some((0, 2)));
    assert!(results[2].is_none(), "the starved party cannot finish");

    // The starved party reports the missing round when its input ends: the
    // protocol round (1-based on the wire) and the silent senders.
    let (mut engine, _msgs) = KeygenEngine::new(2, 2, n, 11).expect("engine");
    let err = engine.input_closed();
    match err {
        bls_blueprint::keygen::KeygenError::MpcError(m) => {
            assert!(m.contains("MissingMessages"), "names the missing-messages failure: {m}");
            assert!(m.contains("round=1"), "a fresh engine is starved in round 1: {m}");
            assert!(m.contains("[0, 1]"), "both peers are missing: {m}");
        }
        other => panic!("expected MpcError, got {other:?}"),
    }

    // An engine fed through round 1 that loses a round-2 share reports
    // protocol round 2 with the silent sender.
    let mut engines: Vec<KeygenEngine> = Vec::new();
    let mut hashes: Vec<KeygenMsg> = Vec::new();
    for i in 0..n {
        let (engine, msgs) = bls_keygen_protocol(i, 2, n, 13).expect("engine");
        for m in msgs {
            hashes.push(m);
        }
        engines.push(engine);
    }
    // Party 2 hears both round-1 hashes and then only party 1's round-2
    // share; party 0's share is lost.
    let mut share_for_2: Option<KeygenMsg> = None;
    for m in &hashes {
        if let KeygenMsg::DkgRound1(x) = m {
            if x.source != 2 {
                match engines[2].handle(m.clone()).expect("r1") {
                    KeygenProgress::Send(_) => {}
                    KeygenProgress::NeedMore => {}
                    other => panic!("unexpected progress: {other:?}"),
                }
            }
        }
    }
    // Collect party 1's round-2 deal for party 2 by completing its round 1.
    for m in &hashes {
        if let KeygenMsg::DkgRound1(x) = m {
            if x.source == 1 {
                continue;
            }
            if let Ok(KeygenProgress::Send(more)) = engines[1].handle(m.clone()) {
                for mm in more {
                    if let KeygenMsg::DkgRound2(d) = &mm {
                        if d.destination == 2 {
                            share_for_2 = Some(mm.clone());
                        }
                    }
                }
            }
        }
    }
    let share = share_for_2.expect("party 1 dealt a share to party 2");
    match engines[2].handle(share).expect("one share") {
        KeygenProgress::NeedMore => {}
        other => panic!("round 2 is still missing a share: {other:?}"),
    }
    let err2 = engines[2].input_closed();
    match err2 {
        bls_blueprint::keygen::KeygenError::MpcError(m) => {
            assert!(m.contains("MissingMessages"), "{m}");
            assert!(m.contains("round=2"), "the point-to-point share round is round 2: {m}");
            assert!(m.contains("[0]"), "party 0 is the silent sender: {m}");
        }
        other => panic!("expected MpcError, got {other:?}"),
    }
}

#[test]
fn same_keygen_twice_differs_per_call_id() {
    let n: u16 = 3;
    let a = run_keygen(n, 2, 1, None);
    let b = run_keygen(n, 2, 2, None);
    let pk_a = a[0].as_ref().unwrap().uncompressed_pk.clone().unwrap();
    let pk_b = b[0].as_ref().unwrap().uncompressed_pk.clone().unwrap();
    assert_ne!(pk_a, pk_b, "independent keygens sample independent keys");
}

#[test]
fn sign_unknown_key_is_key_retrieval_error() {
    let store = ShareStore::new();
    let err = load_signing_state(&store, 3, 42, 999).expect_err("no entry");
    match err {
        SigningError::KeyRetrievalError(m) => assert_eq!(m, "Key entry not found"),
        other => panic!("expected KeyRetrievalError, got {other:?}"),
    }
}

#[test]
fn four_party_keygen_then_all_sign() {
    let n: u16 = 4;
    let results = run_keygen(n, 2, 21, None);
    let states: Vec<BlsState> = results.into_iter().map(|r| r.expect("finished")).collect();
    let pk = states[0].uncompressed_pk.clone().expect("pk");

    let message = b"threshold".to_vec();
    let signatures = run_signing(n, &states, &message);
    assert!(milagro_verify(&pk, &message, &signatures[0]));
}

#[test]
fn two_parties_threshold_one() {
    let n: u16 = 2;
    let results = run_keygen(n, 1, 31, None);
    let states: Vec<BlsState> = results.into_iter().map(|r| r.expect("finished")).collect();
    let pk = states[0].uncompressed_pk.clone().expect("pk");
    assert_eq!(states[1].uncompressed_pk.as_deref(), Some(pk.as_slice()));

    let message = b"pair".to_vec();
    let signatures = run_signing(n, &states, &message);
    assert!(milagro_verify(&pk, &message, &signatures[0]));
}

#[test]
fn threshold_equal_to_cohort_size() {
    let n: u16 = 3;
    let results = run_keygen(n, 3, 33, None);
    let states: Vec<BlsState> = results.into_iter().map(|r| r.expect("finished")).collect();
    let pk = states[0].uncompressed_pk.clone().expect("pk");

    let message = b"all-of-all".to_vec();
    let signatures = run_signing(n, &states, &message);
    assert!(milagro_verify(&pk, &message, &signatures[0]));
}

#[test]
fn sign_a_one_mebibyte_message() {
    let n: u16 = 2;
    let results = run_keygen(n, 2, 41, None);
    let states: Vec<BlsState> = results.into_iter().map(|r| r.expect("finished")).collect();
    let pk = states[0].uncompressed_pk.clone().expect("pk");

    let message = vec![0xa5u8; 1 << 20];
    let signatures = run_signing(n, &states, &message);
    assert!(milagro_verify(&pk, &message, &signatures[0]));
}

#[test]
fn store_round_trip_through_drivers() {
    let mut store = ShareStore::new();
    let n: u16 = 3;
    let blueprint_id: u64 = 5;
    let call_id: u64 = 77;
    let results = run_keygen(n, 2, call_id, None);
    let state = results[0].clone().expect("finished");
    let expected_pk = state.uncompressed_pk.clone().unwrap();
    let expected_sk = state.secret_key_bytes.clone().unwrap();

    let returned = finish_keygen(&mut store, n, blueprint_id, call_id, state).expect("persisted");
    assert_eq!(returned, expected_pk, "the driver returns the stored public key");

    let loaded = load_signing_state(&store, n, blueprint_id, call_id).expect("present");
    assert_eq!(loaded.uncompressed_pk.as_deref(), Some(expected_pk.as_slice()));
    assert_eq!(loaded.secret_key_bytes.as_deref(), Some(expected_sk.as_slice()));
    assert_eq!(loaded.call_id, call_id);
    assert_eq!(loaded.t, 2);
}
