//! Round-router contracts exercised on concrete message sequences.
use bls_blueprint::router::{ProtocolError, ReceiveOutcome, RoundKind, RoundRouter};

fn broadcast_router(rounds: usize) -> RoundRouter {
    let kinds: Vec<RoundKind> = (0..rounds).map(|_| RoundKind::Broadcast).collect();
    RoundRouter::new(0, 3, kinds)
}

#[test]
fn duplicate_within_round_is_rejected() {
    let mut r = broadcast_router(1);
    assert_eq!(r.receive(0, 1, None, vec![1]), Ok(ReceiveOutcome::Stored));
    let err = r.receive(0, 1, None, vec![2]).expect_err("second copy");
    assert_eq!(err, ProtocolError::Duplicate { round: 0, sender: 1 });
    // The first message is kept: completing after the other sender arrives
    // hands out the payload that came first.
    assert_eq!(r.receive(0, 2, None, vec![3]), Ok(ReceiveOutcome::Stored));
    let msgs = r.complete(0).expect("complete");
    assert_eq!(msgs, vec![(1u16, vec![1u8]), (2u16, vec![3u8])]);
}

#[test]
fn bad_sender_is_rejected() {
    let mut r = broadcast_router(1);
    assert_eq!(
        r.receive(0, 3, None, vec![0]).expect_err("outside the cohort"),
        ProtocolError::BadSender { round: 0, sender: 3 }
    );
    assert_eq!(
        r.receive(0, 0, None, vec![0]).expect_err("the local party"),
        ProtocolError::BadSender { round: 0, sender: 0 }
    );
}

#[test]
fn future_round_is_buffered_and_does_not_complete_the_current_one() {
    let mut r = broadcast_router(2);
    assert_eq!(r.receive(1, 1, None, vec![9]), Ok(ReceiveOutcome::Stored));
    assert_eq!(r.receive(1, 2, None, vec![8]), Ok(ReceiveOutcome::Stored));
    // Round 1 is full, round 0 is untouched.
    assert!(r.is_complete(1));
    assert!(!r.is_complete(0));
    let err = r.complete(0).expect_err("round 0 has nothing");
    assert_eq!(err, ProtocolError::MissingMessages { round: 0, missing: vec![1, 2] });
}

#[test]
fn missing_set_names_the_silent_sender() {
    let mut r = broadcast_router(1);
    assert_eq!(r.receive(0, 2, None, vec![5]), Ok(ReceiveOutcome::Stored));
    let err = r.complete(0).expect_err("sender 1 is silent");
    assert_eq!(err, ProtocolError::MissingMessages { round: 0, missing: vec![1] });
}

#[test]
fn past_round_messages_are_dropped() {
    let mut r = broadcast_router(2);
    assert_eq!(r.receive(0, 1, None, vec![1]), Ok(ReceiveOutcome::Stored));
    assert_eq!(r.receive(0, 2, None, vec![2]), Ok(ReceiveOutcome::Stored));
    let msgs = r.complete(0).expect("complete");
    assert_eq!(msgs.len(), 2);
    assert_eq!(r.receive(0, 1, None, vec![7]), Ok(ReceiveOutcome::Ignored));
}

#[test]
fn point_to_point_drops_other_destinations() {
    let kinds = vec![RoundKind::PointToPoint];
    let mut r = RoundRouter::new(1, 3, kinds);
    assert_eq!(r.receive(0, 0, Some(2), vec![1]), Ok(ReceiveOutcome::Ignored));
    assert_eq!(r.receive(0, 0, None, vec![1]), Ok(ReceiveOutcome::Ignored));
    assert_eq!(r.receive(0, 0, Some(1), vec![1]), Ok(ReceiveOutcome::Stored));
    assert_eq!(r.receive(0, 2, Some(1), vec![2]), Ok(ReceiveOutcome::Stored));
    let msgs = r.complete(0).expect("complete");
    assert_eq!(msgs, vec![(0u16, vec![1u8]), (2u16, vec![2u8])]);
}

#[test]
fn completed_round_output_is_in_ascending_sender_order() {
    let kinds = vec![RoundKind::Broadcast];
    let mut r = RoundRouter::new(2, 4, kinds);
    assert_eq!(r.receive(0, 3, None, vec![33]), Ok(ReceiveOutcome::Stored));
    assert_eq!(r.receive(0, 0, None, vec![11]), Ok(ReceiveOutcome::Stored));
    assert_eq!(r.receive(0, 1, None, vec![22]), Ok(ReceiveOutcome::Stored));
    let msgs = r.complete(0).expect("complete");
    assert_eq!(msgs, vec![(0u16, vec![11u8]), (1u16, vec![22u8]), (3u16, vec![33u8])]);
}
