//! The signing engine on its own: share derivation, error paths, and the
//! local verification gate.
use bls_blueprint::keygen_state_machine::BlsState;
use bls_blueprint::signing::SigningError;
use bls_blueprint::signing_state_machine::{
    bls_signing_protocol, Msg1, SigningEngine, SigningMsg, SigningProgress,
};
use sha2::Digest;

fn keyed_state() -> (BlsState, snowbridge_milagro_bls::SecretKey) {
    // A fixed, in-range secret scalar.
    let mut sk_bytes = vec![0u8; 32];
    sk_bytes[31] = 0x2a;
    sk_bytes[0] = 0x01;
    let sk = snowbridge_milagro_bls::SecretKey::from_bytes(&sk_bytes).expect("in range");
    let pk = snowbridge_milagro_bls::PublicKey::from_secret_key(&sk);
    let mut pk97 = vec![0x04u8];
    pk97.extend_from_slice(&pk.as_uncompressed_bytes());
    let state = BlsState {
        secret_key_bytes: Some(sk_bytes),
        uncompressed_pk: Some(pk97),
        call_id: 1,
        t: 2,
    };
    (state, sk)
}

#[test]
fn the_broadcast_share_is_a_real_signature_over_the_digest() {
    let (state, sk) = keyed_state();
    let message = b"hello threshold".to_vec();
    let (_engine, msg) = bls_signing_protocol(0, 2, &state, &message).expect("engine");
    let SigningMsg::Round1Broadcast(m1) = msg;
    assert_eq!(m1.sender, 0);
    assert!(m1.receiver.is_none());
    assert_eq!(m1.body.len(), 96);
    assert_ne!(&m1.body[..32], state.secret_key_bytes.as_deref().unwrap());

    let digest = sha2::Sha256::digest(&message);
    let share = snowbridge_milagro_bls::Signature::from_bytes(&m1.body).expect("parses");
    let pk = snowbridge_milagro_bls::PublicKey::from_secret_key(&sk);
    assert!(share.verify(&digest, &pk), "the share verifies under the share key");
}

#[test]
fn missing_secret_key_is_a_key_retrieval_error() {
    let (mut state, _) = keyed_state();
    state.secret_key_bytes = None;
    let err = SigningEngine::new(0, 2, &state, &b"m".to_vec()).expect_err("no key");
    match err {
        SigningError::KeyRetrievalError(m) => assert_eq!(m, "Secret key not found in state"),
        other => panic!("expected KeyRetrievalError, got {other:?}"),
    }
}

#[test]
fn missing_public_key_is_a_key_retrieval_error() {
    let (mut state, _) = keyed_state();
    state.uncompressed_pk = None;
    let err = SigningEngine::new(0, 2, &state, &b"m".to_vec()).expect_err("no key");
    assert!(matches!(err, SigningError::KeyRetrievalError(_)));
}

#[test]
fn out_of_range_secret_key_is_an_mpc_error() {
    let (mut state, _) = keyed_state();
    state.secret_key_bytes = Some(vec![0xffu8; 32]);
    let err = SigningEngine::new(0, 2, &state, &b"m".to_vec()).expect_err("bad scalar");
    assert!(matches!(err, SigningError::MpcError(_)));
}

/// Two parties with independent keys and the stored key equal to the
/// aggregation of both share keys, as keygen persists it.
fn two_party_states() -> (BlsState, BlsState) {
    let mut sk0_bytes = vec![0u8; 32];
    sk0_bytes[31] = 0x2a;
    let mut sk1_bytes = vec![0u8; 32];
    sk1_bytes[31] = 0x07;
    sk1_bytes[30] = 0x13;
    let sk0 = snowbridge_milagro_bls::SecretKey::from_bytes(&sk0_bytes).expect("in range");
    let sk1 = snowbridge_milagro_bls::SecretKey::from_bytes(&sk1_bytes).expect("in range");
    let pk0 = snowbridge_milagro_bls::PublicKey::from_secret_key(&sk0);
    let pk1 = snowbridge_milagro_bls::PublicKey::from_secret_key(&sk1);
    let agg = snowbridge_milagro_bls::AggregatePublicKey::aggregate(&[&pk0, &pk1]).expect("agg");
    let mut pk97 = [0u8; 97];
    agg.point.to_bytes(&mut pk97, false);
    let mk = |sk_bytes: Vec<u8>| BlsState {
        secret_key_bytes: Some(sk_bytes),
        uncompressed_pk: Some(pk97.to_vec()),
        call_id: 1,
        t: 2,
    };
    (mk(sk0_bytes), mk(sk1_bytes))
}

#[test]
fn a_share_over_the_wrong_message_fails_local_verification() {
    let (state0, state1) = two_party_states();
    let message = b"the real message".to_vec();
    let (mut engine, _my_share) = SigningEngine::new(0, 2, &state0, &message).expect("engine");
    let (_other_engine, wrong_share) =
        SigningEngine::new(1, 2, &state1, &b"another message".to_vec()).expect("other");
    let SigningMsg::Round1Broadcast(m1) = wrong_share;
    let err = engine
        .handle(SigningMsg::Round1Broadcast(Msg1 {
            sender: 1,
            receiver: None,
            body: m1.body,
        }))
        .expect_err("aggregate cannot verify");
    match err {
        SigningError::MpcError(m) => assert_eq!(m, "Failed to verify signature locally"),
        other => panic!("expected MpcError, got {other:?}"),
    }
}

#[test]
fn duplicate_share_is_an_mpc_error() {
    let (state, _) = keyed_state();
    let message = b"m".to_vec();
    let (mut engine, _) = SigningEngine::new(0, 3, &state, &message).expect("engine");
    let (_e1, share1) = SigningEngine::new(1, 3, &state, &message).expect("peer");
    let SigningMsg::Round1Broadcast(m1) = share1;
    match engine
        .handle(SigningMsg::Round1Broadcast(m1.clone()))
        .expect("first copy")
    {
        SigningProgress::NeedMore => {}
        other => panic!("round is not complete yet: {other:?}"),
    }
    let err = engine
        .handle(SigningMsg::Round1Broadcast(m1))
        .expect_err("second copy");
    assert!(matches!(err, SigningError::MpcError(_)));
}

#[test]
fn shares_are_collected_in_party_order() {
    let (state0, state1) = two_party_states();
    let message = b"ordered".to_vec();
    let (mut engine0, _share0) = SigningEngine::new(0, 2, &state0, &message).expect("engine");
    let (_engine1, share1) = SigningEngine::new(1, 2, &state1, &message).expect("peer");
    match engine0.handle(share1).expect("completes") {
        SigningProgress::Finished(st) => {
            let shares = st.received_shares();
            assert_eq!(shares.len(), 2);
            assert_eq!(shares[0].0, 0);
            assert_eq!(shares[1].0, 1);
            assert!(st.signature.is_some());
            assert_eq!(st.secret_key.as_deref(), state0.secret_key_bytes.as_deref());
        }
        other => panic!("expected Finished, got {other:?}"),
    }
}
