//! BLS12-381 signing primitives, supplied by an outside implementation.
//! Secret keys travel as 32-byte big-endian scalars, public-key shares as
//! 96-byte uncompressed `x ‖ y` encodings, aggregated public keys as 97
//! bytes with a leading format flag, and signatures as 96-byte compressed
//! G2 encodings. Every result is named so that contracts can speak of it,
//! and every acceptance test of an encoding is named so that contracts can
//! say exactly when an operation succeeds.
use vstd::prelude::*;

verus! {

/// Whether bytes are accepted as a secret key: exactly when
/// SecretKey::from_bytes does (32 bytes, value in `[1, r-1]`).
pub uninterp spec fn bls_usable_secret(sk: Seq<u8>) -> bool;

/// Whether bytes decode as a signature: exactly when Signature::from_bytes
/// accepts them.
pub uninterp spec fn bls_sig_parseable(sig: Seq<u8>) -> bool;

/// Whether bytes decode as an uncompressed public key: exactly when
/// PublicKey::from_uncompressed_bytes accepts them.
pub uninterp spec fn bls_pk_parseable(pk: Seq<u8>) -> bool;

/// The uncompressed public key derived from a secret key.
pub uninterp spec fn bls_pk_of(sk: Seq<u8>) -> Seq<u8>;

/// The signature of a digest under a secret key.
pub uninterp spec fn bls_sig_of(sk: Seq<u8>, digest: Seq<u8>) -> Seq<u8>;

/// The aggregation of a sequence of signature shares, in order.
pub uninterp spec fn agg_sig_of(shares: Seq<Seq<u8>>) -> Seq<u8>;

/// The aggregation of a sequence of uncompressed public-key shares, in
/// order, as a flagged 97-byte uncompressed encoding.
pub uninterp spec fn agg_pk_of(shares: Seq<Seq<u8>>) -> Seq<u8>;

/// Whether a signature verifies under an uncompressed public key and a
/// digest.
pub uninterp spec fn bls_verifies(pk: Seq<u8>, digest: Seq<u8>, sig: Seq<u8>) -> bool;

/// Relies on snowbridge_milagro_bls: SecretKey::from_bytes (an error unless
/// 32 bytes in `[1, r-1]`), PublicKey::from_secret_key, and
/// PublicKey::as_uncompressed_bytes (96 bytes, `x ‖ y`, which
/// from_uncompressed_bytes reads back).
#[verifier::external_body]
pub(crate) fn pk_share_from_secret(sk: &Vec<u8>) -> (r: Option<Vec<u8>>)
    ensures
        r is Some ==> bls_usable_secret(sk@) && r->Some_0@ == bls_pk_of(sk@) && r->Some_0@.len()
            == 96 && bls_pk_parseable(r->Some_0@),
        r is None ==> !bls_usable_secret(sk@),
{
    let secret = snowbridge_milagro_bls::SecretKey::from_bytes(sk.as_slice()).ok()?;
    let pk = snowbridge_milagro_bls::PublicKey::from_secret_key(&secret);
    Some(pk.as_uncompressed_bytes().to_vec())
}

/// Relies on snowbridge_milagro_bls: SecretKey::from_bytes (an error unless
/// 32 bytes in `[1, r-1]`) and Signature::new, whose result is a function
/// of the key and message bytes alone; Signature::as_bytes is the 96-byte
/// compressed encoding, which Signature::from_bytes reads back.
#[verifier::external_body]
pub(crate) fn sign_with_secret(sk: &Vec<u8>, digest: &Vec<u8>) -> (r: Option<Vec<u8>>)
    ensures
        r is Some ==> bls_usable_secret(sk@) && r->Some_0@ == bls_sig_of(sk@, digest@)
            && r->Some_0@.len() == 96 && bls_sig_parseable(r->Some_0@),
        r is None ==> !bls_usable_secret(sk@),
{
    let secret = snowbridge_milagro_bls::SecretKey::from_bytes(sk.as_slice()).ok()?;
    let sig = snowbridge_milagro_bls::Signature::new(digest.as_slice(), &secret);
    Some(sig.as_bytes().to_vec())
}

/// Relies on snowbridge_milagro_bls: Signature::from_bytes on each share
/// and AggregateSignature::aggregate, which adds the signature points and
/// accepts any list; `None` exactly when a share fails to decode. The
/// 96-byte result is a compressed point that Signature::from_bytes reads
/// back.
#[verifier::external_body]
pub(crate) fn aggregate_signature_shares(shares: &Vec<Vec<u8>>) -> (r: Option<Vec<u8>>)
    ensures
        r is Some ==> (forall|k: int|
            0 <= k < shares.deep_view().len() ==> bls_sig_parseable(
                #[trigger] shares.deep_view()[k],
            )) && r->Some_0@ == agg_sig_of(shares.deep_view()) && r->Some_0@.len() == 96
            && bls_sig_parseable(r->Some_0@),
        r is None ==> !(forall|k: int|
            0 <= k < shares.deep_view().len() ==> bls_sig_parseable(
                #[trigger] shares.deep_view()[k],
            )),
{
    let mut parsed = Vec::with_capacity(shares.len());
    for share in shares.iter() {
        parsed.push(snowbridge_milagro_bls::Signature::from_bytes(share.as_slice()).ok()?);
    }
    let refs: Vec<&snowbridge_milagro_bls::Signature> = parsed.iter().collect();
    let agg = snowbridge_milagro_bls::AggregateSignature::aggregate(&refs);
    Some(agg.as_bytes().to_vec())
}

/// Relies on snowbridge_milagro_bls: PublicKey::from_uncompressed_bytes on
/// each 96-byte share, AggregatePublicKey::aggregate (an error on an empty
/// list), and the underlying point's `to_bytes` without compression, which
/// writes a format flag followed by `x ‖ y` — 97 bytes. `None` exactly
/// when the list is empty or a share fails to decode.
#[verifier::external_body]
pub(crate) fn aggregate_pk_shares(shares: &Vec<Vec<u8>>) -> (r: Option<Vec<u8>>)
    ensures
        r is Some ==> shares.deep_view().len() >= 1 && (forall|k: int|
            0 <= k < shares.deep_view().len() ==> bls_pk_parseable(
                #[trigger] shares.deep_view()[k],
            )) && r->Some_0@ == agg_pk_of(shares.deep_view()) && r->Some_0@.len() == 97,
        r is None ==> !(shares.deep_view().len() >= 1 && (forall|k: int|
            0 <= k < shares.deep_view().len() ==> bls_pk_parseable(
                #[trigger] shares.deep_view()[k],
            ))),
{
    let mut parsed = Vec::with_capacity(shares.len());
    for share in shares.iter() {
        parsed.push(
            snowbridge_milagro_bls::PublicKey::from_uncompressed_bytes(share.as_slice()).ok()?,
        );
    }
    let refs: Vec<&snowbridge_milagro_bls::PublicKey> = parsed.iter().collect();
    let agg = snowbridge_milagro_bls::AggregatePublicKey::aggregate(&refs).ok()?;
    let mut out = [0u8; 97];
    agg.point.to_bytes(&mut out, false);
    Some(out.to_vec())
}

/// Relies on snowbridge_milagro_bls: PublicKey::from_uncompressed_bytes,
/// Signature::from_bytes, and Signature::verify, a pairing check that is a
/// function of its three inputs alone; `None` exactly when the key or
/// signature fails to decode.
#[verifier::external_body]
pub(crate) fn verify_signature(pk: &Vec<u8>, digest: &Vec<u8>, sig: &Vec<u8>) -> (r: Option<bool>)
    ensures
        r is Some ==> bls_pk_parseable(pk@) && bls_sig_parseable(sig@) && r->Some_0
            == bls_verifies(pk@, digest@, sig@),
        r is None ==> !(bls_pk_parseable(pk@) && bls_sig_parseable(sig@)),
{
    let key = snowbridge_milagro_bls::PublicKey::from_uncompressed_bytes(pk.as_slice()).ok()?;
    let signature = snowbridge_milagro_bls::Signature::from_bytes(sig.as_slice()).ok()?;
    Some(signature.verify(digest.as_slice(), &key))
}

} // verus!
