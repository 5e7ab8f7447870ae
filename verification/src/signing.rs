//! Signing job plumbing: its error kinds, job constants, and the store
//! lookup that recovers the key state persisted by the matching keygen job.
use vstd::prelude::*;
use vstd::string::StringSliceAdditionalSpecFns;
use crate::encoding::{hex_encode, hex_spec};
use crate::keygen_state_machine::BlsState;
use crate::store::{ShareStore, state_view};

verus! {

/// The job id under which signing is dispatched.
pub const SIGN_JOB_ID: u8 = 1;

/// The execution-id salt of signing sessions.
pub const SIGNING_SALT: &'static str = "bls-signing";

/// Failures of the signing job.
#[derive(Clone, Debug, PartialEq, Eq)]
pub enum SigningError {
    /// Misconfiguration: a missing id or operator mapping.
    ContextError(String),
    /// No key state stored for the session, or the aggregate failed to
    /// verify.
    KeyRetrievalError(String),
    /// A cryptographic or round-protocol failure.
    MpcError(String),
}

/// Recomputes the session meta-hash for `keygen_call_id` and loads the key
/// state persisted under its hex encoding. Absence is exactly the
/// key-retrieval error.
pub fn load_signing_state(
    store: &ShareStore,
    n: u16,
    blueprint_id: u64,
    keygen_call_id: u64,
) -> (r: Result<BlsState, SigningError>)
    ensures
        ({
            let key = hex_spec(
                crate::session_ids_spec(
                    n,
                    blueprint_id,
                    keygen_call_id,
                    SIGNING_SALT.spec_bytes(),
                ).0,
            );
            match r {
                Ok(st) => store.lookup_spec(key) == Some(state_view(st)),
                Err(SigningError::KeyRetrievalError(_)) => store.lookup_spec(key) is None,
                Err(_) => false,
            }
        }),
{
    let (meta_hash, _execution_id) = crate::compute_deterministic_hashes(
        n,
        blueprint_id,
        keygen_call_id,
        SIGNING_SALT,
    );
    let store_key = hex_encode(&meta_hash);
    match store.get(&store_key) {
        Some(st) => Ok(st),
        None => Err(SigningError::KeyRetrievalError("Key entry not found".to_owned())),
    }
}

} // verus!
