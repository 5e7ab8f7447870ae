//! Keygen job plumbing: its error kinds, job constants, and the roster
//! rule that gives every party the same `(i, n)` for a job: the cohort is
//! the lexicographically sorted peer list, and a party's index is its
//! position in that order.
use vstd::prelude::*;
use crate::encoding::{copy_bytes, hex_encode, hex_spec, lex_lt};
use crate::hashing::sha256_of;
use crate::keygen_state_machine::BlsState;
use crate::store::{ShareStore, state_view};

verus! {

/// The job id under which keygen is dispatched.
pub const KEYGEN_JOB_ID: u8 = 0;

/// The execution-id salt of keygen sessions.
pub const KEYGEN_SALT: &'static str = "bls-keygen";

/// Failures of the keygen job.
#[derive(Clone, Debug, PartialEq, Eq)]
pub enum KeygenError {
    /// Bad wire bytes.
    SerializationError(String),
    /// A cryptographic or round-protocol failure.
    MpcError(String),
    /// Misconfiguration: a missing id or operator mapping.
    ContextError(String),
    /// The transport failed to deliver.
    DeliveryError(String),
}

/// Persists a finished keygen state under the hex-encoded session meta-hash
/// and hands the aggregated public key back for the dispatcher. Nothing is
/// written unless the state holds a public key.
pub fn finish_keygen(
    store: &mut ShareStore,
    n: u16,
    blueprint_id: u64,
    call_id: u64,
    state: BlsState,
) -> (r: Result<Vec<u8>, KeygenError>)
    ensures
        ({
            let key = hex_spec(sha256_of(crate::meta_input_spec(n, blueprint_id, call_id)));
            match r {
                Ok(pk) => {
                    &&& state.uncompressed_pk matches Some(p) && pk@ == p@
                    &&& final(store).lookup_spec(key) == Some(state_view(state))
                    &&& forall|k: Seq<u8>|
                        k != key ==> #[trigger] final(store).lookup_spec(k) == old(
                            store,
                        ).lookup_spec(k)
                },
                Err(KeygenError::MpcError(_)) => state.uncompressed_pk is None && *final(store)
                    == *old(store),
                Err(_) => false,
            }
        }),
{
    let pk = match &state.uncompressed_pk {
        Some(p) => copy_bytes(p),
        None => {
            return Err(KeygenError::MpcError("Public key missing".to_owned()));
        },
    };
    let (meta_hash, _execution_id) = crate::compute_deterministic_hashes(
        n,
        blueprint_id,
        call_id,
        KEYGEN_SALT,
    );
    let key = hex_encode(&meta_hash);
    store.set(key, state);
    Ok(pk)
}

/// The number of peers lexicographically below `local`: its position in the
/// sorted roster.
pub open spec fn count_below_spec(peers: Seq<Seq<u8>>, local: Seq<u8>) -> int
    decreases peers.len(),
{
    if peers.len() == 0 {
        0
    } else {
        count_below_spec(peers.drop_last(), local) + if lex_lt(peers.last(), local) {
            1int
        } else {
            0int
        }
    }
}

/// Resolves the local party's index and the cohort size from the
/// authenticated peer identities of a job, the local identity included.
/// The index is the local identity's position in the lexicographically
/// sorted roster. Fails when the local identity is absent or the cohort has
/// fewer than two members.
pub fn resolve_party_index(peers: &Vec<Vec<u8>>, local: &Vec<u8>) -> (r: Result<
    (u16, u16),
    KeygenError,
>)
    requires
        peers@.len() < 65536,
    ensures
        match r {
            Ok((i, n)) => {
                &&& n as int == peers@.len()
                &&& n >= 2
                &&& i as int == count_below_spec(peers.deep_view(), local@)
                &&& exists|k: int| 0 <= k < peers@.len() && (#[trigger] peers@[k])@ == local@
            },
            Err(KeygenError::ContextError(_)) => peers@.len() < 2 || !(exists|k: int|
                0 <= k < peers@.len() && (#[trigger] peers@[k])@ == local@),
            Err(_) => false,
        },
{
    if peers.len() < 2 {
        return Err(KeygenError::ContextError("fewer than two operators".to_owned()));
    }
    let ghost dv = peers.deep_view();
    let mut below: u16 = 0;
    let mut found: bool = false;
    let mut k: usize = 0;
    while k < peers.len()
        invariant
            k <= peers@.len(),
            peers@.len() < 65536,
            dv == peers.deep_view(),
            dv.len() == peers@.len(),
            below as int == count_below_spec(dv.take(k as int), local@),
            below as int <= k,
            found <==> exists|m: int| 0 <= m < k && (#[trigger] peers@[m])@ == local@,
        decreases peers@.len() - k,
    {
        if crate::encoding::bytes_eq(&peers[k], local) {
            found = true;
            proof {
                crate::encoding::lemma_lex_irrefl(local@);
            }
        } else if crate::encoding::bytes_lt(&peers[k], local) {
            below += 1;
        }
        proof {
            assert(dv.take(k as int + 1).drop_last() =~= dv.take(k as int));
            assert(dv.take(k as int + 1).last() == dv[k as int]);
            assert(dv[k as int] == peers@[k as int]@);
        }
        k += 1;
    }
    if !found {
        return Err(KeygenError::ContextError("local operator not in the set".to_owned()));
    }
    proof {
        assert(dv.take(peers@.len() as int) =~= dv);
    }
    Ok((below, peers.len() as u16))
}

} // verus!
