//! Distributed BLS threshold signing service core: a cohort of `n` operators
//! jointly generates a BLS12-381 key no single operator knows, then signs
//! messages under the aggregated public key.
pub mod bls_ops;
pub mod dkg;
pub mod encoding;
pub mod group_ops;
pub mod hashing;
pub mod keygen;
pub mod keygen_state_machine;
pub mod router;
pub mod signing;
pub mod signing_state_machine;
pub mod store;

use vstd::prelude::*;
use vstd::string::StringSliceAdditionalSpecFns;
use crate::encoding::{u16_be, u16_be_spec, u64_be, u64_be_spec};
use crate::hashing::{sha2_256, sha256_of};

verus! {

/// The protocol tag a transport must carry for this service's messages.
pub const NETWORK_PROTOCOL: &'static str = "bls/gennaro/1.0.0";

/// Salt bound into every session meta-hash.
pub const META_SALT: &'static str = "bls-protocol";

/// The bytes hashed into a session's meta-hash: `n`, `blueprint_id` and
/// `call_id` in big-endian, then the fixed meta salt.
pub open spec fn meta_input_spec(n: u16, blueprint_id: u64, call_id: u64) -> Seq<u8> {
    u16_be_spec(n) + u64_be_spec(blueprint_id) + u64_be_spec(call_id) + META_SALT.spec_bytes()
}

/// The pair of session identifiers derived from a job's parameters: the
/// meta-hash that keys the persisted share, and the execution id that scopes
/// in-flight messages under the given protocol salt.
pub open spec fn session_ids_spec(n: u16, blueprint_id: u64, call_id: u64, salt: Seq<u8>) -> (
    Seq<u8>,
    Seq<u8>,
) {
    let meta = sha256_of(meta_input_spec(n, blueprint_id, call_id));
    (meta, sha256_of(meta + salt))
}

/// Computes the deterministic session identifiers for a BLS job: the
/// meta-hash and the salted execution id. For signing, `call_id` must be the
/// call id of the preceding keygen job.
pub fn compute_deterministic_hashes(n: u16, blueprint_id: u64, call_id: u64, salt: &'static str)
    -> (r: (Vec<u8>, Vec<u8>))
    ensures
        (r.0@, r.1@) == session_ids_spec(n, blueprint_id, call_id, salt.spec_bytes()),
        r.0@.len() == 32,
        r.1@.len() == 32,
{
    let mut data: Vec<u8> = Vec::new();
    let n_bytes = u16_be(n);
    let bid_bytes = u64_be(blueprint_id);
    let cid_bytes = u64_be(call_id);
    data.extend_from_slice(n_bytes.as_slice());
    data.extend_from_slice(bid_bytes.as_slice());
    data.extend_from_slice(cid_bytes.as_slice());
    data.extend_from_slice(META_SALT.as_bytes());
    proof {
        assert(data@ =~= meta_input_spec(n, blueprint_id, call_id));
    }
    let meta_hash = sha2_256(&data);

    let mut exec_input: Vec<u8> = Vec::new();
    exec_input.extend_from_slice(meta_hash.as_slice());
    exec_input.extend_from_slice(salt.as_bytes());
    proof {
        assert(exec_input@ =~= meta_hash@ + salt.spec_bytes());
    }
    let deterministic_hash = sha2_256(&exec_input);

    (meta_hash, deterministic_hash)
}

/// Session identifiers are a pure function of the job parameters: any two
/// parties that agree on `(n, blueprint_id, call_id, salt)` derive
/// byte-identical meta-hashes and execution ids, whatever order they joined
/// the cohort in.
pub proof fn lemma_session_ids_deterministic(
    n1: u16,
    blueprint_id1: u64,
    call_id1: u64,
    salt1: Seq<u8>,
    n2: u16,
    blueprint_id2: u64,
    call_id2: u64,
    salt2: Seq<u8>,
)
    requires
        n1 == n2,
        blueprint_id1 == blueprint_id2,
        call_id1 == call_id2,
        salt1 == salt2,
    ensures
        session_ids_spec(n1, blueprint_id1, call_id1, salt1) == session_ids_spec(
            n2,
            blueprint_id2,
            call_id2,
            salt2,
        ),
{
}

} // verus!
