//! Session-identifier derivation checked against an independent
//! reconstruction, and the byte-level encodings.
use bls_blueprint::compute_deterministic_hashes;
use bls_blueprint::encoding::{bytes_eq, bytes_lt, hex_encode, index_scalar, u16_be, u64_be};
use sha2::Digest;

#[test]
fn session_ids_match_an_independent_reconstruction() {
    let n: u16 = 3;
    let blueprint_id: u64 = 0;
    let call_id: u64 = 1;
    let (meta, exec) = compute_deterministic_hashes(n, blueprint_id, call_id, "bls-keygen");

    let mut data = Vec::new();
    data.extend_from_slice(&n.to_be_bytes());
    data.extend_from_slice(&blueprint_id.to_be_bytes());
    data.extend_from_slice(&call_id.to_be_bytes());
    data.extend_from_slice(b"bls-protocol");
    let expected_meta = sha2::Sha256::digest(&data).to_vec();
    assert_eq!(meta, expected_meta);

    let mut exec_input = expected_meta.clone();
    exec_input.extend_from_slice(b"bls-keygen");
    let expected_exec = sha2::Sha256::digest(&exec_input).to_vec();
    assert_eq!(exec, expected_exec);
}

#[test]
fn session_ids_are_deterministic() {
    let a = compute_deterministic_hashes(5, 10, 20, "bls-signing");
    let b = compute_deterministic_hashes(5, 10, 20, "bls-signing");
    assert_eq!(a, b);
}

#[test]
fn meta_hash_is_salt_independent_but_execution_id_is_not() {
    let keygen = compute_deterministic_hashes(3, 7, 9, "bls-keygen");
    let signing = compute_deterministic_hashes(3, 7, 9, "bls-signing");
    assert_eq!(keygen.0, signing.0, "the store key is shared between the jobs");
    assert_ne!(keygen.1, signing.1, "in-flight messages are scoped per job");
}

#[test]
fn distinct_call_ids_give_distinct_meta_hashes() {
    let a = compute_deterministic_hashes(3, 7, 1, "bls-keygen");
    let b = compute_deterministic_hashes(3, 7, 2, "bls-keygen");
    assert_ne!(a.0, b.0);
}

#[test]
fn big_endian_encodings() {
    assert_eq!(u16_be(0x1234), vec![0x12, 0x34]);
    assert_eq!(u16_be(0), vec![0, 0]);
    assert_eq!(
        u64_be(0x0102030405060708),
        vec![0x01, 0x02, 0x03, 0x04, 0x05, 0x06, 0x07, 0x08]
    );
    assert_eq!(u64_be(u64::MAX), vec![0xff; 8]);
}

#[test]
fn index_scalar_is_zero_padded_big_endian() {
    let s = index_scalar(3);
    assert_eq!(s.len(), 32);
    assert_eq!(&s[..31], &[0u8; 31]);
    assert_eq!(s[31], 3);
}

#[test]
fn hex_encode_matches_the_reference_encoder() {
    let data = vec![0x00u8, 0x01, 0x7f, 0x80, 0xab, 0xff];
    let ours = hex_encode(&data);
    assert_eq!(String::from_utf8(ours).unwrap(), hex::encode(&data));
    assert_eq!(hex_encode(&Vec::new()), Vec::<u8>::new());
}

#[test]
fn byte_comparisons() {
    assert!(bytes_eq(&vec![1, 2], &vec![1, 2]));
    assert!(!bytes_eq(&vec![1, 2], &vec![1, 3]));
    assert!(!bytes_eq(&vec![1, 2], &vec![1, 2, 3]));
    assert!(bytes_lt(&vec![1, 2], &vec![1, 3]));
    assert!(bytes_lt(&vec![1, 2], &vec![1, 2, 0]));
    assert!(!bytes_lt(&vec![1, 2], &vec![1, 2]));
    assert!(!bytes_lt(&vec![2], &vec![1, 9]));
}
