//! The key-generation participant driven directly: share consistency under
//! Lagrange interpolation, group-key consensus, and the verification
//! failures on tampered rounds.
use bls_blueprint::dkg::{DkgError, DkgParticipant};
use blstrs_plus::ff::Field;
use blstrs_plus::{G1Projective, Scalar};

fn run_dkg(n: u16, t: u16) -> Vec<DkgParticipant> {
    let mut ps: Vec<DkgParticipant> = (0..n)
        .map(|i| DkgParticipant::new(i, t, n).expect("participant"))
        .collect();

    let hashes: Vec<Vec<u8>> = ps.iter().map(|p| p.round1_payload()).collect();
    for i in 0..n as usize {
        for j in 0..n as usize {
            if i != j {
                ps[j].receive_round1(i as u16, hashes[i].clone()).expect("r1");
            }
        }
    }

    let mut deals: Vec<Vec<(u16, Vec<u8>)>> = Vec::new();
    for p in ps.iter_mut() {
        deals.push(p.begin_round2().expect("deal"));
    }
    for (i, outs) in deals.iter().enumerate() {
        for (dest, share) in outs {
            ps[*dest as usize].receive_round2(i as u16, share.clone()).expect("r2");
        }
    }

    let mut reveals: Vec<Vec<u8>> = Vec::new();
    for p in ps.iter_mut() {
        reveals.push(p.begin_round3());
    }
    for i in 0..n as usize {
        for j in 0..n as usize {
            if i != j {
                ps[j].receive_round3(i as u16, reveals[i].clone()).expect("r3");
            }
        }
    }

    let mut acks: Vec<Vec<u8>> = Vec::new();
    for p in ps.iter_mut() {
        acks.push(p.begin_round4());
    }
    for i in 0..n as usize {
        for j in 0..n as usize {
            if i != j {
                ps[j].receive_round4(i as u16, acks[i].clone()).expect("r4");
            }
        }
    }

    for p in ps.iter_mut() {
        p.finalize().expect("finalize");
        assert!(p.completed());
    }
    ps
}

fn scalar_of(bytes: &[u8]) -> Scalar {
    Scalar::from_be_bytes(bytes.try_into().expect("32 bytes")).expect("canonical")
}

/// Interpolates the shares of the given 0-based parties at zero.
fn interpolate(ps: &[DkgParticipant], subset: &[u16]) -> Scalar {
    let mut acc = Scalar::ZERO;
    for &i in subset {
        let share = scalar_of(&ps[i as usize].get_secret_share().expect("share"));
        let xi = Scalar::from(i as u64 + 1);
        let mut lambda = Scalar::ONE;
        for &j in subset {
            if j != i {
                let xj = Scalar::from(j as u64 + 1);
                lambda *= xj * (xj - xi).invert().expect("distinct points");
            }
        }
        acc += lambda * share;
    }
    acc
}

#[test]
fn any_threshold_subset_recovers_the_group_key() {
    let ps = run_dkg(3, 2);

    let group_pk = ps[0].group_public_key().expect("group key");
    assert_eq!(group_pk.len(), 48);
    for p in &ps {
        assert_eq!(p.group_public_key().as_deref(), Some(group_pk.as_slice()));
    }

    let x01 = interpolate(&ps, &[0, 1]);
    let x12 = interpolate(&ps, &[1, 2]);
    let x02 = interpolate(&ps, &[0, 2]);
    assert_eq!(x01, x12, "every threshold subset recovers the same scalar");
    assert_eq!(x01, x02, "every threshold subset recovers the same scalar");

    let derived = (G1Projective::GENERATOR * x01).to_compressed().to_vec();
    assert_eq!(derived, group_pk, "the recovered scalar is the group key's discrete log");
}

#[test]
fn three_of_five_subsets_agree() {
    let ps = run_dkg(5, 3);
    let a = interpolate(&ps, &[0, 1, 2]);
    let b = interpolate(&ps, &[2, 3, 4]);
    let c = interpolate(&ps, &[0, 2, 4]);
    assert_eq!(a, b);
    assert_eq!(a, c);
    let pk = ps[1].group_public_key().expect("group key");
    assert_eq!((G1Projective::GENERATOR * a).to_compressed().to_vec(), pk);
}

#[test]
fn round1_rejects_wrong_length() {
    let mut p = DkgParticipant::new(0, 2, 3).expect("participant");
    let err = p.receive_round1(1, vec![0u8; 31]).expect_err("not a digest");
    assert_eq!(err, DkgError::BadLength);
}

#[test]
fn round3_rejects_a_forged_reveal() {
    let n: u16 = 3;
    let t: u16 = 2;
    let mut ps: Vec<DkgParticipant> = (0..n)
        .map(|i| DkgParticipant::new(i, t, n).expect("participant"))
        .collect();
    let hashes: Vec<Vec<u8>> = ps.iter().map(|p| p.round1_payload()).collect();
    for i in 0..n as usize {
        for j in 0..n as usize {
            if i != j {
                ps[j].receive_round1(i as u16, hashes[i].clone()).expect("r1");
            }
        }
    }
    let mut deals: Vec<Vec<(u16, Vec<u8>)>> = Vec::new();
    for p in ps.iter_mut() {
        deals.push(p.begin_round2().expect("deal"));
    }
    for (i, outs) in deals.iter().enumerate() {
        for (dest, share) in outs {
            ps[*dest as usize].receive_round2(i as u16, share.clone()).expect("r2");
        }
    }
    let mut reveals: Vec<Vec<u8>> = Vec::new();
    for p in ps.iter_mut() {
        reveals.push(p.begin_round3());
    }
    // Party 1's reveal presented as party 0's: the hash opening fails.
    let err = ps[2]
        .receive_round3(0, reveals[1].clone())
        .expect_err("hash mismatch");
    assert_eq!(err, DkgError::BadCommitmentOpening);
    // A reveal of the right shape but wrong content fails the same way.
    let forged = vec![0u8; 48 * t as usize];
    let err = ps[2].receive_round3(0, forged).expect_err("forged commitments");
    assert_eq!(err, DkgError::BadCommitmentOpening);
}

#[test]
fn round3_rejects_a_share_off_the_polynomial() {
    let n: u16 = 3;
    let t: u16 = 2;
    let mut ps: Vec<DkgParticipant> = (0..n)
        .map(|i| DkgParticipant::new(i, t, n).expect("participant"))
        .collect();
    let hashes: Vec<Vec<u8>> = ps.iter().map(|p| p.round1_payload()).collect();
    for i in 0..n as usize {
        for j in 0..n as usize {
            if i != j {
                ps[j].receive_round1(i as u16, hashes[i].clone()).expect("r1");
            }
        }
    }
    let mut deals: Vec<Vec<(u16, Vec<u8>)>> = Vec::new();
    for p in ps.iter_mut() {
        deals.push(p.begin_round2().expect("deal"));
    }
    for (i, outs) in deals.iter().enumerate() {
        for (dest, share) in outs {
            let delivered = if i == 0 && *dest == 2 {
                // Party 0's share to party 2 is tampered in transit.
                let tampered = scalar_of(share) + Scalar::ONE;
                tampered.to_be_bytes().to_vec()
            } else {
                share.clone()
            };
            ps[*dest as usize].receive_round2(i as u16, delivered).expect("r2");
        }
    }
    let mut reveals: Vec<Vec<u8>> = Vec::new();
    for p in ps.iter_mut() {
        reveals.push(p.begin_round3());
    }
    let err = ps[2]
        .receive_round3(0, reveals[0].clone())
        .expect_err("share does not match the commitments");
    assert_eq!(err, DkgError::BadShare);
}

#[test]
fn round4_rejects_a_complaint() {
    let ps = &mut run_dkg_to_round4();
    let err = ps[1].receive_round4(0, vec![0u8]).expect_err("complaint byte");
    assert_eq!(err, DkgError::BadTranscript);
    let err = ps[1].receive_round4(0, vec![1u8, 1u8]).expect_err("wrong length");
    assert_eq!(err, DkgError::BadTranscript);
}

fn run_dkg_to_round4() -> Vec<DkgParticipant> {
    let n: u16 = 3;
    let t: u16 = 2;
    let mut ps: Vec<DkgParticipant> = (0..n)
        .map(|i| DkgParticipant::new(i, t, n).expect("participant"))
        .collect();
    let hashes: Vec<Vec<u8>> = ps.iter().map(|p| p.round1_payload()).collect();
    for i in 0..n as usize {
        for j in 0..n as usize {
            if i != j {
                ps[j].receive_round1(i as u16, hashes[i].clone()).expect("r1");
            }
        }
    }
    let mut deals: Vec<Vec<(u16, Vec<u8>)>> = Vec::new();
    for p in ps.iter_mut() {
        deals.push(p.begin_round2().expect("deal"));
    }
    for (i, outs) in deals.iter().enumerate() {
        for (dest, share) in outs {
            ps[*dest as usize].receive_round2(i as u16, share.clone()).expect("r2");
        }
    }
    let mut reveals: Vec<Vec<u8>> = Vec::new();
    for p in ps.iter_mut() {
        reveals.push(p.begin_round3());
    }
    for i in 0..n as usize {
        for j in 0..n as usize {
            if i != j {
                ps[j].receive_round3(i as u16, reveals[i].clone()).expect("r3");
            }
        }
    }
    for p in ps.iter_mut() {
        p.begin_round4();
    }
    ps
}
