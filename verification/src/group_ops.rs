//! Prime-field and G1 group operations on BLS12-381, supplied by an outside
//! implementation. Scalars travel as canonical 32-byte big-endian encodings,
//! group elements as 48-byte compressed encodings; every operation is named
//! so that contracts can speak of its result, and canonicity of an encoding
//! is named so that contracts can say exactly when an operation succeeds.
use blstrs_plus::ff::Field;
use vstd::prelude::*;

verus! {

/// Whether 32 bytes are the canonical big-endian encoding of a field
/// scalar: exactly when Scalar::from_be_bytes accepts them.
pub uninterp spec fn scalar_canonical(b: Seq<u8>) -> bool;

/// Whether 48 bytes are the canonical compressed encoding of a G1 element:
/// exactly when G1Projective::from_compressed accepts them.
pub uninterp spec fn g1_canonical(b: Seq<u8>) -> bool;

/// The sum of two field scalars, on canonical 32-byte big-endian encodings.
pub uninterp spec fn scalar_add_of(a: Seq<u8>, b: Seq<u8>) -> Seq<u8>;

/// The product of two field scalars, on canonical 32-byte big-endian
/// encodings.
pub uninterp spec fn scalar_mul_of(a: Seq<u8>, b: Seq<u8>) -> Seq<u8>;

/// The fixed G1 generator multiplied by a scalar, compressed.
pub uninterp spec fn g1_base_mul_of(s: Seq<u8>) -> Seq<u8>;

/// A compressed G1 element multiplied by a scalar, compressed.
pub uninterp spec fn g1_mul_of(p: Seq<u8>, s: Seq<u8>) -> Seq<u8>;

/// The sum of two compressed G1 elements, compressed.
pub uninterp spec fn g1_add_of(p: Seq<u8>, q: Seq<u8>) -> Seq<u8>;

/// A well-formed scalar operand: 32 bytes, canonically encoded.
pub open spec fn scalar_ok(b: Seq<u8>) -> bool {
    b.len() == 32 && scalar_canonical(b)
}

/// A well-formed G1 operand: 48 bytes, canonically encoded.
pub open spec fn g1_ok(b: Seq<u8>) -> bool {
    b.len() == 48 && g1_canonical(b)
}

/// Relies on blstrs_plus::Scalar::random: a uniformly sampled field element,
/// returned by Scalar::to_be_bytes in canonical 32-byte big-endian form.
/// Nothing is promised about its value.
#[verifier::external_body]
pub(crate) fn scalar_random() -> (r: Vec<u8>)
    ensures
        r@.len() == 32 && scalar_canonical(r@),
{
    blstrs_plus::Scalar::random(&mut rand::rng()).to_be_bytes().to_vec()
}

/// Relies on blstrs_plus::Scalar::from_be_bytes: accepts exactly the
/// canonical 32-byte encodings.
#[verifier::external_body]
pub(crate) fn scalar_check(b: &Vec<u8>) -> (r: bool)
    ensures
        r == scalar_ok(b@),
{
    let bb: [u8; 32] = match b.as_slice().try_into() {
        Ok(x) => x,
        Err(_) => return false,
    };
    Option::<blstrs_plus::Scalar>::from(blstrs_plus::Scalar::from_be_bytes(&bb)).is_some()
}

/// Relies on blstrs_plus::Scalar addition, with Scalar::from_be_bytes and
/// Scalar::to_be_bytes converting at the edges; `Some` exactly when both
/// inputs are canonical scalar encodings, and then a canonical encoding
/// itself.
#[verifier::external_body]
pub(crate) fn scalar_add(a: &Vec<u8>, b: &Vec<u8>) -> (r: Option<Vec<u8>>)
    ensures
        r is Some ==> scalar_ok(a@) && scalar_ok(b@) && r->Some_0@ == scalar_add_of(a@, b@)
            && scalar_ok(r->Some_0@),
        r is None ==> !(scalar_ok(a@) && scalar_ok(b@)),
{
    let aa: [u8; 32] = a.as_slice().try_into().ok()?;
    let bb: [u8; 32] = b.as_slice().try_into().ok()?;
    let sa = Option::<blstrs_plus::Scalar>::from(blstrs_plus::Scalar::from_be_bytes(&aa))?;
    let sb = Option::<blstrs_plus::Scalar>::from(blstrs_plus::Scalar::from_be_bytes(&bb))?;
    Some((sa + sb).to_be_bytes().to_vec())
}

/// Relies on blstrs_plus::Scalar multiplication, with Scalar::from_be_bytes
/// and Scalar::to_be_bytes converting at the edges; `Some` exactly when both
/// inputs are canonical scalar encodings, and then a canonical encoding
/// itself.
#[verifier::external_body]
pub(crate) fn scalar_mul(a: &Vec<u8>, b: &Vec<u8>) -> (r: Option<Vec<u8>>)
    ensures
        r is Some ==> scalar_ok(a@) && scalar_ok(b@) && r->Some_0@ == scalar_mul_of(a@, b@)
            && scalar_ok(r->Some_0@),
        r is None ==> !(scalar_ok(a@) && scalar_ok(b@)),
{
    let aa: [u8; 32] = a.as_slice().try_into().ok()?;
    let bb: [u8; 32] = b.as_slice().try_into().ok()?;
    let sa = Option::<blstrs_plus::Scalar>::from(blstrs_plus::Scalar::from_be_bytes(&aa))?;
    let sb = Option::<blstrs_plus::Scalar>::from(blstrs_plus::Scalar::from_be_bytes(&bb))?;
    Some((sa * sb).to_be_bytes().to_vec())
}

/// Relies on blstrs_plus::G1Projective::GENERATOR and its scalar
/// multiplication, compressed with G1Projective::to_compressed; `Some`
/// exactly when the input is a canonical scalar encoding, and then a
/// canonical compressed element.
#[verifier::external_body]
pub(crate) fn g1_base_mul(s: &Vec<u8>) -> (r: Option<Vec<u8>>)
    ensures
        r is Some ==> scalar_ok(s@) && r->Some_0@ == g1_base_mul_of(s@) && r->Some_0@.len() == 48
            && g1_canonical(r->Some_0@),
        r is None ==> !scalar_ok(s@),
{
    let ss: [u8; 32] = s.as_slice().try_into().ok()?;
    let sc = Option::<blstrs_plus::Scalar>::from(blstrs_plus::Scalar::from_be_bytes(&ss))?;
    Some((blstrs_plus::G1Projective::GENERATOR * sc).to_compressed().to_vec())
}

/// Relies on blstrs_plus::G1Projective scalar multiplication, with
/// from_compressed and to_compressed converting at the edges; `Some`
/// exactly when both inputs decode, and then a canonical compressed
/// element.
#[verifier::external_body]
pub(crate) fn g1_mul(p: &Vec<u8>, s: &Vec<u8>) -> (r: Option<Vec<u8>>)
    ensures
        r is Some ==> g1_ok(p@) && scalar_ok(s@) && r->Some_0@ == g1_mul_of(p@, s@) && g1_ok(
            r->Some_0@,
        ),
        r is None ==> !(g1_ok(p@) && scalar_ok(s@)),
{
    let pp: [u8; 48] = p.as_slice().try_into().ok()?;
    let ss: [u8; 32] = s.as_slice().try_into().ok()?;
    let pt = Option::<blstrs_plus::G1Projective>::from(
        blstrs_plus::G1Projective::from_compressed(&pp),
    )?;
    let sc = Option::<blstrs_plus::Scalar>::from(blstrs_plus::Scalar::from_be_bytes(&ss))?;
    Some((pt * sc).to_compressed().to_vec())
}

/// Relies on blstrs_plus::G1Projective addition, with from_compressed and
/// to_compressed converting at the edges; `Some` exactly when both inputs
/// decode, and then a canonical compressed element.
#[verifier::external_body]
pub(crate) fn g1_add(p: &Vec<u8>, q: &Vec<u8>) -> (r: Option<Vec<u8>>)
    ensures
        r is Some ==> g1_ok(p@) && g1_ok(q@) && r->Some_0@ == g1_add_of(p@, q@) && g1_ok(
            r->Some_0@,
        ),
        r is None ==> !(g1_ok(p@) && g1_ok(q@)),
{
    let pp: [u8; 48] = p.as_slice().try_into().ok()?;
    let qq: [u8; 48] = q.as_slice().try_into().ok()?;
    let pt = Option::<blstrs_plus::G1Projective>::from(
        blstrs_plus::G1Projective::from_compressed(&pp),
    )?;
    let qt = Option::<blstrs_plus::G1Projective>::from(
        blstrs_plus::G1Projective::from_compressed(&qq),
    )?;
    Some((pt + qt).to_compressed().to_vec())
}

} // verus!
