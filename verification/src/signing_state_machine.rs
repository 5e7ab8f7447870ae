//! The threshold signing driver: one broadcast round of signature shares,
//! local aggregation in party-index order, and local verification of the
//! aggregate against the stored public key before it is released.
use vstd::prelude::*;
use crate::bls_ops::{agg_sig_of, aggregate_signature_shares, bls_pk_parseable, bls_sig_of,
    bls_sig_parseable, bls_usable_secret, bls_verifies, sign_with_secret, verify_signature};
use crate::encoding::{copy_bytes, tail_bytes};
use crate::hashing::{sha2_256, sha256_of};
use crate::keygen_state_machine::{BlsState, HasRecipient, MessageDestination};
use crate::router::{ReceiveOutcome, RoundKind, RoundRouter, sender_at};
use crate::signing::SigningError;

verus! {

broadcast use crate::encoding::lemma_deep_view_index;

/// The state a signing session accumulates: the loaded secret key, the
/// shares received in the broadcast round keyed by sender, and the verified
/// aggregate signature.
#[derive(Debug)]
pub struct BlsSigningState {
    /// The secret key scalar loaded for this session (32 bytes, big-endian).
    pub secret_key: Option<Vec<u8>>,
    /// The verified aggregate signature (96 bytes, compressed).
    pub signature: Option<Vec<u8>>,
    /// The signature shares received, in ascending party order.
    pub received_sig_shares: Vec<(u16, Vec<u8>)>,
}

impl BlsSigningState {
    /// The signature shares collected, in ascending party order.
    pub closed spec fn shares_view(self) -> Seq<(u16, Vec<u8>)> {
        self.received_sig_shares@
    }

    /// The signature shares collected, in ascending party order.
    pub fn received_shares(&self) -> (r: &Vec<(u16, Vec<u8>)>)
        ensures
            r@ == self.shares_view(),
    {
        &self.received_sig_shares
    }
}

/// A session that holds nothing yet: no key, no signature, no shares.
pub open spec fn is_empty_session(r: BlsSigningState) -> bool {
    &&& r.secret_key is None
    &&& r.signature is None
    &&& r.shares_view().len() == 0
}

impl Default for BlsSigningState {
    /// An empty session: nothing loaded, nothing received.
    fn default() -> (r: BlsSigningState)
        ensures
            is_empty_session(r),
    {
        BlsSigningState { secret_key: None, signature: None, received_sig_shares: Vec::new() }
    }
}

/// Messages of the signing protocol: a single broadcast of signature
/// shares.
#[derive(Clone, Debug)]
pub enum SigningMsg {
    Round1Broadcast(Msg1),
}

/// A broadcast signature share over the digest of the message being signed.
#[derive(Clone, Debug)]
pub struct Msg1 {
    pub sender: u16,
    pub receiver: Option<u16>,
    pub body: Vec<u8>,
}

impl HasRecipient for SigningMsg {
    open spec fn recipient_spec(&self) -> MessageDestination {
        MessageDestination::AllParties
    }

    fn recipient(&self) -> (r: MessageDestination)
        ensures
            r == self.recipient_spec(),
    {
        MessageDestination::AllParties
    }
}

/// What the signing engine asks of its driver after one inbound message.
#[derive(Debug)]
pub enum SigningProgress {
    /// Keep feeding inbound messages.
    NeedMore,
    /// The broadcast round is complete and the aggregate verified.
    Finished(BlsSigningState),
}

/// Drives one party through the signing protocol: share, broadcast,
/// collect, aggregate in index order, verify.
#[derive(Debug)]
pub struct SigningEngine {
    i: u16,
    n: u16,
    secret_key: Vec<u8>,
    pk97: Vec<u8>,
    digest: Vec<u8>,
    my_share: Vec<u8>,
    router: RoundRouter,
}

impl SigningEngine {
    /// The local party's index.
    pub closed spec fn local_index(self) -> int {
        self.i as int
    }

    /// The cohort size.
    pub closed spec fn parties(self) -> int {
        self.n as int
    }

    /// The secret key scalar this session signs with.
    pub closed spec fn secret_view(self) -> Seq<u8> {
        self.secret_key@
    }

    /// The stored 97-byte public key, format flag included.
    pub closed spec fn pk_view(self) -> Seq<u8> {
        self.pk97@
    }

    /// The digest of the message being signed.
    pub closed spec fn digest_view(self) -> Seq<u8> {
        self.digest@
    }

    /// This party's own signature share.
    pub closed spec fn my_share_view(self) -> Seq<u8> {
        self.my_share@
    }

    /// The underlying round router.
    pub closed spec fn router_state(self) -> RoundRouter {
        self.router
    }

    /// Structural invariant: a one-round broadcast router for this cohort,
    /// and an own share derived from the key and digest.
    pub closed spec fn wf(self) -> bool {
        &&& 2 <= self.n
        &&& self.i < self.n
        &&& self.router.wf()
        &&& self.router.parties() == self.n as int
        &&& self.router.local_index() == self.i as int
        &&& self.router.round_kinds().len() == 1
        &&& self.router.round_kinds()[0] is Broadcast
        &&& self.digest@.len() == 32
        &&& self.my_share@ == bls_sig_of(self.secret_key@, self.digest@)
        &&& self.my_share@.len() == 96
    }

    /// The signature share attributed to party `j`: this party's own, or
    /// the share `j` broadcast.
    pub open spec fn sig_input_at(self, j: int) -> Seq<u8> {
        if j == self.local_index() {
            self.my_share_view()
        } else {
            self.router_state().slot(0, j)->Some_0
        }
    }

    /// All parties' signature shares, in index order.
    pub open spec fn sig_inputs(self) -> Seq<Seq<u8>> {
        Seq::new(self.parties() as nat, |j: int| self.sig_input_at(j))
    }

    /// A fresh engine and this party's share broadcast: the share signs the
    /// SHA-256 digest of the message with the stored secret key.
    pub fn new(i: u16, n: u16, state: &BlsState, input_data_to_sign: &Vec<u8>) -> (r: Result<
        (SigningEngine, SigningMsg),
        SigningError,
    >)
        requires
            2 <= n,
            i < n,
        ensures
            match r {
                Ok((e, m)) => {
                    &&& e.wf()
                    &&& e.local_index() == i as int
                    &&& e.parties() == n as int
                    &&& e.router_state().closed_before() == 0
                    &&& e.digest_view() == sha256_of(input_data_to_sign@)
                    &&& state.secret_key_bytes matches Some(sk) && e.secret_view() == sk@
                    &&& state.uncompressed_pk matches Some(pk) && e.pk_view() == pk@
                    &&& m matches SigningMsg::Round1Broadcast(m1) && m1.sender == i && m1.receiver
                        is None && m1.body@ == bls_sig_of(e.secret_view(), e.digest_view())
                },
                Err(SigningError::KeyRetrievalError(m)) => (state.secret_key_bytes is None
                    && m@ == "Secret key not found in state"@) || (state.secret_key_bytes is Some
                    && state.uncompressed_pk is None && m@
                    == "Uncompressed public key not found in state"@),
                Err(SigningError::MpcError(m)) => state.secret_key_bytes matches Some(sk)
                    && state.uncompressed_pk is Some && !bls_usable_secret(sk@) && m@
                    == "Failed to create secret key"@,
                Err(SigningError::ContextError(_)) => false,
            },
            (state.secret_key_bytes matches Some(sk) && state.uncompressed_pk is Some
                && bls_usable_secret(sk@)) ==> r is Ok,
    {
        let secret_key = match &state.secret_key_bytes {
            Some(sk) => copy_bytes(sk),
            None => {
                return Err(
                    SigningError::KeyRetrievalError("Secret key not found in state".to_owned()),
                );
            },
        };
        let pk97 = match &state.uncompressed_pk {
            Some(pk) => copy_bytes(pk),
            None => {
                return Err(
                    SigningError::KeyRetrievalError(
                        "Uncompressed public key not found in state".to_owned(),
                    ),
                );
            },
        };
        let digest = sha2_256(input_data_to_sign);
        let my_share = match sign_with_secret(&secret_key, &digest) {
            Some(s) => s,
            None => {
                return Err(SigningError::MpcError("Failed to create secret key".to_owned()));
            },
        };
        let mut kinds: Vec<RoundKind> = Vec::new();
        kinds.push(RoundKind::Broadcast);
        let router = RoundRouter::new(i, n, kinds);
        let body = copy_bytes(&my_share);
        let msg = SigningMsg::Round1Broadcast(Msg1 { sender: i, receiver: None, body });
        let engine = SigningEngine { i, n, secret_key, pk97, digest, my_share, router };
        Ok((engine, msg))
    }

    /// Files one inbound share. When a share has arrived from every other
    /// party, aggregates all shares in party-index order, verifies the
    /// aggregate against the stored public key and the digest, and releases
    /// the session state; a failed verification fails the job.
    pub fn handle(&mut self, msg: SigningMsg) -> (r: Result<SigningProgress, SigningError>)
        requires
            old(self).wf(),
            old(self).router_state().closed_before() == 0,
        ensures
            r is Ok ==> final(self).wf(),
            final(self).local_index() == old(self).local_index(),
            final(self).parties() == old(self).parties(),
            final(self).digest_view() == old(self).digest_view(),
            final(self).pk_view() == old(self).pk_view(),
            final(self).secret_view() == old(self).secret_view(),
            final(self).my_share_view() == old(self).my_share_view(),
            match r {
                Ok(SigningProgress::NeedMore) => ({
                    let m1 = msg->Round1Broadcast_0;
                    &&& final(self).router_state().closed_before() == 0
                    &&& !final(self).router_state().complete_spec(0)
                    &&& final(self).router_state().slot(0, m1.sender as int) == Some(m1.body@)
                }),
                Ok(SigningProgress::Finished(st)) => {
                    &&& final(self).router_state().closed_before() == 1
                    &&& st.signature matches Some(sig) && sig@ == agg_sig_of(
                        final(self).sig_inputs(),
                    ) && bls_verifies(
                        final(self).pk_view().skip(1),
                        final(self).digest_view(),
                        sig@,
                    ) && sig@.len() == 96
                    &&& st.secret_key matches Some(sk) && sk@ == old(self).secret_view()
                    &&& st.shares_view().len() == old(self).parties()
                    &&& forall|j: int|
                        0 <= j < st.shares_view().len() ==> (#[trigger] st.shares_view()[j]).0
                            as int == j && st.shares_view()[j].1@ == final(self).sig_input_at(j)
                },
                Err(SigningError::MpcError(m)) => ({
                    let m1 = msg->Round1Broadcast_0;
                    ||| ({
                        &&& final(self).router_state().closed_before() == 0
                        &&& m@ == "Failed to complete round: bad message"@
                        &&& (m1.sender as int >= old(self).parties() || m1.sender as int == old(
                            self,
                        ).local_index() || old(self).router_state().slot(0, m1.sender as int)
                            is Some)
                    })
                    ||| ({
                        &&& final(self).router_state().closed_before() == 1
                        &&& ({
                            ||| (m@ == "Failed to create signature"@ && (exists|k: int|
                                0 <= k < final(self).sig_inputs().len() && !bls_sig_parseable(
                                    #[trigger] final(self).sig_inputs()[k],
                                )))
                            ||| (m@ == "Failed to create public key"@ && (final(self).pk_view(
                            ).len() < 1 || !bls_pk_parseable(final(self).pk_view().skip(1))
                                || !bls_sig_parseable(agg_sig_of(final(self).sig_inputs()))))
                            ||| (m@ == "Failed to verify signature locally"@ && !bls_verifies(
                                final(self).pk_view().skip(1),
                                final(self).digest_view(),
                                agg_sig_of(final(self).sig_inputs()),
                            ))
                        })
                    })
                }),
                Err(_) => false,
            },
    {
        let m1 = match msg {
            SigningMsg::Round1Broadcast(m) => m,
        };
        match self.router.receive(0, m1.sender, m1.receiver, m1.body) {
            Ok(ReceiveOutcome::Stored) => {},
            Ok(ReceiveOutcome::Ignored) => {
                proof {
                    assert(false);
                }
                return Ok(SigningProgress::NeedMore);
            },
            Err(_) => {
                return Err(
                    SigningError::MpcError("Failed to complete round: bad message".to_owned()),
                );
            },
        }
        if !self.router.is_complete(0) {
            return Ok(SigningProgress::NeedMore);
        }
        let ghost pre_router = self.router;
        let msgs = match self.router.complete(0) {
            Ok(m) => m,
            Err(_) => {
                proof {
                    assert(false);
                }
                return Err(SigningError::MpcError("Failed to complete round".to_owned()));
            },
        };
        proof {
            assert(pre_router.round_output_ok(0, msgs@));
            assert forall|k2: int|
                0 <= k2 < msgs@.len() implies #[trigger] msgs@[k2].0 as int == sender_at(
                k2,
                self.local_index(),
            ) && Some(msgs@[k2].1@) == self.router_state().slot(
                0,
                sender_at(k2, self.local_index()),
            ) by {
                crate::router::lemma_sender_at_bounds(k2, self.local_index(), self.parties());
                assert(msgs@[k2].0 as int == sender_at(k2, pre_router.local_index()));
                assert(Some(msgs@[k2].1@) == pre_router.slot(
                    0,
                    sender_at(k2, pre_router.local_index()),
                ));
                assert(self.router_state().slot(0, sender_at(k2, self.local_index()))
                    == pre_router.slot(0, sender_at(k2, self.local_index())));
            }
        }
        let mut collected: Vec<(u16, Vec<u8>)> = Vec::new();
        let mut share_bytes: Vec<Vec<u8>> = Vec::new();
        let mut j: u16 = 0;
        while j < self.n
            invariant
                self.wf(),
                self.router_state().closed_before() == 1,
                self.parties() == old(self).parties(),
                self.local_index() == old(self).local_index(),
                self.my_share_view() == old(self).my_share_view(),
                j <= self.n,
                collected@.len() == j as int,
                share_bytes@.len() == j as int,
                msgs@.len() == self.parties() - 1,
                forall|k2: int|
                    0 <= k2 < msgs@.len() ==> #[trigger] msgs@[k2].0 as int == sender_at(
                        k2,
                        self.local_index(),
                    ) && Some(msgs@[k2].1@) == self.router_state().slot(
                        0,
                        sender_at(k2, self.local_index()),
                    ),
                forall|j2: int|
                    0 <= j2 < j as int ==> (#[trigger] collected@[j2]).0 as int == j2
                        && collected@[j2].1@ == self.sig_input_at(j2),
                forall|j2: int|
                    0 <= j2 < j as int ==> (#[trigger] share_bytes@[j2])@ == self.sig_input_at(j2),
            decreases self.n - j,
        {
            let share_j: Vec<u8> = if j == self.i {
                copy_bytes(&self.my_share)
            } else {
                proof {
                    crate::router::lemma_sender_at_covers(
                        self.local_index(),
                        self.parties(),
                        j as int,
                    );
                }
                let k2: usize = if j < self.i {
                    j as usize
                } else {
                    j as usize - 1
                };
                proof {
                    assert(msgs@[k2 as int].0 as int == sender_at(k2 as int, self.local_index()));
                    assert(sender_at(k2 as int, self.local_index()) == j as int);
                }
                copy_bytes(&msgs[k2].1)
            };
            proof {
                assert(share_j@ == self.sig_input_at(j as int));
            }
            let share_copy = copy_bytes(&share_j);
            collected.push((j, share_j));
            share_bytes.push(share_copy);
            j += 1;
        }
        proof {
            assert forall|j2: int|
                0 <= j2 < self.parties() implies #[trigger] share_bytes.deep_view()[j2]
                == self.sig_input_at(j2) by {
                assert(share_bytes.deep_view()[j2] == share_bytes@[j2]@);
            }
            assert(share_bytes.deep_view() =~= self.sig_inputs());
        }
        let aggregated = match aggregate_signature_shares(&share_bytes) {
            Some(a) => a,
            None => {
                return Err(SigningError::MpcError("Failed to create signature".to_owned()));
            },
        };
        if self.pk97.len() < 1 {
            return Err(SigningError::MpcError("Failed to create public key".to_owned()));
        }
        let pk_tail = tail_bytes(&self.pk97);
        let verified = match verify_signature(&pk_tail, &self.digest, &aggregated) {
            Some(v) => v,
            None => {
                return Err(SigningError::MpcError("Failed to create public key".to_owned()));
            },
        };
        if !verified {
            return Err(SigningError::MpcError("Failed to verify signature locally".to_owned()));
        }
        let st = BlsSigningState {
            secret_key: Some(copy_bytes(&self.secret_key)),
            signature: Some(aggregated),
            received_sig_shares: collected,
        };
        Ok(SigningProgress::Finished(st))
    }
}

/// Begins a signing session for the loaded key state and the message to
/// sign: the engine that collects the broadcast round, and this party's
/// share to publish first.
pub fn bls_signing_protocol(
    i: u16,
    n: u16,
    state: &BlsState,
    input_data_to_sign: &Vec<u8>,
) -> (r: Result<(SigningEngine, SigningMsg), SigningError>)
    requires
        2 <= n,
        i < n,
    ensures
        match r {
            Ok((e, m)) => {
                &&& e.wf()
                &&& e.local_index() == i as int
                &&& e.parties() == n as int
                &&& e.router_state().closed_before() == 0
                &&& e.digest_view() == sha256_of(input_data_to_sign@)
                &&& state.secret_key_bytes matches Some(sk) && e.secret_view() == sk@
                &&& state.uncompressed_pk matches Some(pk) && e.pk_view() == pk@
                &&& m matches SigningMsg::Round1Broadcast(m1) && m1.sender == i && m1.receiver
                    is None && m1.body@ == bls_sig_of(e.secret_view(), e.digest_view())
            },
            Err(SigningError::KeyRetrievalError(_)) => state.secret_key_bytes is None
                || state.uncompressed_pk is None,
            Err(SigningError::MpcError(_)) => state.secret_key_bytes matches Some(sk)
                && state.uncompressed_pk is Some && !bls_usable_secret(sk@),
            Err(SigningError::ContextError(_)) => false,
        },
        (state.secret_key_bytes matches Some(sk) && state.uncompressed_pk is Some
            && bls_usable_secret(sk@)) ==> r is Ok,
{
    SigningEngine::new(i, n, state, input_data_to_sign)
}

} // verus!
