//! The keygen protocol driver: wire messages, the persisted key state, and
//! the engine that walks one party through the four networked key-generation
//! rounds, the local combine, and the final public-key aggregation round.
use vstd::prelude::*;
use crate::bls_ops::{agg_pk_of, aggregate_pk_shares, bls_pk_of, pk_share_from_secret};
use crate::dkg::{DkgError, DkgParticipant};
use crate::encoding::copy_bytes;
use crate::keygen::KeygenError;
use crate::router::{ProtocolError, ReceiveOutcome, RoundKind, RoundRouter, sender_at};

verus! {

broadcast use crate::encoding::lemma_deep_view_index;

/// State persisted after keygen, needed for signing: the secret key scalar
/// and the aggregated public key as raw bytes.
#[derive(Clone, Debug)]
pub struct BlsState {
    /// Secret key scalar bytes (32 bytes, big-endian).
    pub secret_key_bytes: Option<Vec<u8>>,
    /// Aggregated uncompressed public key bytes (97 bytes: a format flag,
    /// then `x ‖ y`).
    pub uncompressed_pk: Option<Vec<u8>>,
    /// The call id of the keygen job.
    pub call_id: u64,
    /// Threshold.
    pub t: u16,
}

impl Default for BlsState {
    /// An empty state: no key material, zero ids.
    fn default() -> (r: BlsState)
        ensures
            r.secret_key_bytes is None,
            r.uncompressed_pk is None,
            r.call_id == 0,
            r.t == 0,
    {
        BlsState { secret_key_bytes: None, uncompressed_pk: None, call_id: 0, t: 0 }
    }
}

/// Where an outbound message is addressed.
#[derive(Clone, Copy, Debug, PartialEq, Eq, Structural)]
pub enum MessageDestination {
    /// Broadcast to every other party.
    AllParties,
    /// Point-to-point to one party.
    OneParty(u16),
}

/// An outbound message knows where it goes.
pub trait HasRecipient {
    /// The destination the message declares.
    spec fn recipient_spec(&self) -> MessageDestination;

    /// Returns the destination the message declares.
    fn recipient(&self) -> (r: MessageDestination)
        ensures
            r == self.recipient_spec(),
    ;
}

/// Messages of the keygen protocol: four key-generation rounds, then the
/// public-key share broadcast.
#[derive(Clone, Debug)]
pub enum KeygenMsg {
    DkgRound1(DkgRound1Msg),
    DkgRound2(DkgRound2Msg),
    DkgRound3(DkgRound3Msg),
    DkgRound4(DkgRound4Msg),
    PkShareBroadcast(PkShareMsg),
}

/// Broadcast commitment hash.
#[derive(Clone, Debug)]
pub struct DkgRound1Msg {
    pub source: u16,
    pub payload: Vec<u8>,
}

/// Point-to-point dealt share.
#[derive(Clone, Debug)]
pub struct DkgRound2Msg {
    pub source: u16,
    pub destination: u16,
    pub payload: Vec<u8>,
}

/// Broadcast Feldman commitments.
#[derive(Clone, Debug)]
pub struct DkgRound3Msg {
    pub source: u16,
    pub payload: Vec<u8>,
}

/// Broadcast verification acknowledgement.
#[derive(Clone, Debug)]
pub struct DkgRound4Msg {
    pub source: u16,
    pub payload: Vec<u8>,
}

/// Broadcast BLS public-key share.
#[derive(Clone, Debug)]
pub struct PkShareMsg {
    pub source: u16,
    pub data: Vec<u8>,
}

/// The party index a keygen message claims to come from.
pub open spec fn keygen_msg_source(m: KeygenMsg) -> u16 {
    match m {
        KeygenMsg::DkgRound1(x) => x.source,
        KeygenMsg::DkgRound2(x) => x.source,
        KeygenMsg::DkgRound3(x) => x.source,
        KeygenMsg::DkgRound4(x) => x.source,
        KeygenMsg::PkShareBroadcast(x) => x.source,
    }
}

/// The router round a keygen message is filed under.
pub open spec fn keygen_msg_round(m: KeygenMsg) -> u16 {
    match m {
        KeygenMsg::DkgRound1(_) => 0,
        KeygenMsg::DkgRound2(_) => 1,
        KeygenMsg::DkgRound3(_) => 2,
        KeygenMsg::DkgRound4(_) => 3,
        KeygenMsg::PkShareBroadcast(_) => 4,
    }
}

/// The bytes a keygen message carries.
pub open spec fn keygen_msg_payload(m: KeygenMsg) -> Seq<u8> {
    match m {
        KeygenMsg::DkgRound1(x) => x.payload@,
        KeygenMsg::DkgRound2(x) => x.payload@,
        KeygenMsg::DkgRound3(x) => x.payload@,
        KeygenMsg::DkgRound4(x) => x.payload@,
        KeygenMsg::PkShareBroadcast(x) => x.data@,
    }
}

impl HasRecipient for KeygenMsg {
    open spec fn recipient_spec(&self) -> MessageDestination {
        match self {
            KeygenMsg::DkgRound2(m) => MessageDestination::OneParty(m.destination),
            _ => MessageDestination::AllParties,
        }
    }

    fn recipient(&self) -> (r: MessageDestination)
        ensures
            r == self.recipient_spec(),
    {
        match self {
            KeygenMsg::DkgRound2(m) => MessageDestination::OneParty(m.destination),
            KeygenMsg::DkgRound1(_) => MessageDestination::AllParties,
            KeygenMsg::DkgRound3(_) => MessageDestination::AllParties,
            KeygenMsg::DkgRound4(_) => MessageDestination::AllParties,
            KeygenMsg::PkShareBroadcast(_) => MessageDestination::AllParties,
        }
    }
}

/// Maps a key-generation failure to the keygen job error, with a fixed
/// description per kind.
pub fn dkg_err(e: DkgError) -> (r: KeygenError)
    ensures
        r matches KeygenError::MpcError(_),
{
    match e {
        DkgError::BadLength => KeygenError::MpcError("payload has the wrong size".to_owned()),
        DkgError::BadCommitmentOpening => KeygenError::MpcError(
            "revealed commitments do not match the committed hash".to_owned(),
        ),
        DkgError::BadShare => KeygenError::MpcError(
            "share does not lie on the committed polynomial".to_owned(),
        ),
        DkgError::BadTranscript => KeygenError::MpcError(
            "verification round reported a complaint".to_owned(),
        ),
        DkgError::CombinedMismatch => KeygenError::MpcError(
            "combined commitment does not match the public key".to_owned(),
        ),
        DkgError::Arithmetic => KeygenError::MpcError(
            "group operation rejected an encoding".to_owned(),
        ),
    }
}

/// Wraps a round-protocol failure description as the keygen job error.
pub fn mpc_err(message: String) -> (r: KeygenError)
    ensures
        r == KeygenError::MpcError(message),
{
    KeygenError::MpcError(message)
}

/// Begins a keygen session: the engine that drives this party through the
/// protocol's rounds, and the round-1 broadcast to publish before
/// listening.
pub fn bls_keygen_protocol(i: u16, t: u16, n: u16, call_id: u64) -> (r: Result<
    (KeygenEngine, Vec<KeygenMsg>),
    KeygenError,
>)
    requires
        1 <= t <= n,
        2 <= n,
        i < n,
    ensures
        match r {
            Ok((e, msgs)) => {
                &&& e.wf()
                &&& e.local_index() == i as int
                &&& e.threshold() == t as int
                &&& e.parties() == n as int
                &&& e.call_id_spec() == call_id
                &&& e.router_state().closed_before() == 0
                &&& msgs@.len() == 1
                &&& keygen_msg_source(msgs@[0]) == i
                &&& msgs@[0] matches KeygenMsg::DkgRound1(_)
            },
            Err(_) => false,
        },
{
    KeygenEngine::new(i, t, n, call_id)
}

/// Public-key consensus: any two parties that assemble byte-identical
/// ordered lists of public-key shares finish keygen with byte-identical
/// aggregated public keys, whatever their own indices are.
pub proof fn lemma_public_key_consensus(a: KeygenEngine, b: KeygenEngine)
    requires
        a.pk_inputs() == b.pk_inputs(),
    ensures
        agg_pk_of(a.pk_inputs()) == agg_pk_of(b.pk_inputs()),
{
}

/// What the engine asks of its driver after one inbound message.
#[derive(Debug)]
pub enum KeygenProgress {
    /// Keep feeding inbound messages.
    NeedMore,
    /// Publish these messages, then keep feeding inbound messages.
    Send(Vec<KeygenMsg>),
    /// Publish these messages; the protocol is complete with this state.
    Finished(Vec<KeygenMsg>, BlsState),
}

/// Drives one party through the keygen protocol: four key-generation
/// rounds through the router, the local combine, and the aggregation of the
/// parties' public-key shares.
#[derive(Debug)]
pub struct KeygenEngine {
    i: u16,
    t: u16,
    n: u16,
    call_id: u64,
    dkg: DkgParticipant,
    router: RoundRouter,
    my_pk_share: Option<Vec<u8>>,
}

impl KeygenEngine {
    /// The local party's index.
    pub closed spec fn local_index(self) -> int {
        self.i as int
    }

    /// The reconstruction threshold.
    pub closed spec fn threshold(self) -> int {
        self.t as int
    }

    /// The cohort size.
    pub closed spec fn parties(self) -> int {
        self.n as int
    }

    /// The keygen job's call id.
    pub closed spec fn call_id_spec(self) -> u64 {
        self.call_id
    }

    /// The underlying key-generation participant.
    pub closed spec fn dkg_state(self) -> DkgParticipant {
        self.dkg
    }

    /// The underlying round router.
    pub closed spec fn router_state(self) -> RoundRouter {
        self.router
    }

    /// This party's own BLS public-key share, once derived.
    pub closed spec fn pk_share_view(self) -> Option<Seq<u8>> {
        match self.my_pk_share {
            Some(p) => Some(p@),
            None => None,
        }
    }

    /// Structural invariant while a round is being drained: participant and
    /// router agree on the cohort, and the participant's stage tracks the
    /// router's completed rounds.
    pub closed spec fn wf_core(self) -> bool {
        &&& 1 <= self.t <= self.n
        &&& 2 <= self.n
        &&& self.i < self.n
        &&& self.dkg.wf()
        &&& self.dkg.index() == self.i as int
        &&& self.dkg.threshold() == self.t as int
        &&& self.dkg.parties() == self.n as int
        &&& self.router.wf()
        &&& self.router.parties() == self.n as int
        &&& self.router.local_index() == self.i as int
        &&& self.router.round_kinds().len() == 5
        &&& self.router.round_kinds()[0] is Broadcast
        &&& self.router.round_kinds()[1] is PointToPoint
        &&& self.router.round_kinds()[2] is Broadcast
        &&& self.router.round_kinds()[3] is Broadcast
        &&& self.router.round_kinds()[4] is Broadcast
        &&& self.router.closed_before() <= 3 ==> self.dkg.stage() == self.router.closed_before()
            + 1
        &&& self.router.closed_before() >= 4 ==> self.dkg.stage() == 5
        &&& (self.router.closed_before() >= 4 <==> self.my_pk_share is Some)
        &&& self.my_pk_share is Some ==> self.pk_share_view()->Some_0.len() == 96
            && self.pk_share_view()->Some_0 == bls_pk_of(self.dkg.secret_share_view()->Some_0)
    }

    /// Structural invariant at rest: additionally, the outstanding round is
    /// not yet complete — the engine never sits on a drainable round.
    pub closed spec fn wf(self) -> bool {
        &&& self.wf_core()
        &&& self.router.closed_before() < 5 ==> !self.router.complete_spec(
            self.router.closed_before(),
        )
    }

    /// An outbound message stays well formed while the engine's polynomial,
    /// commitments and derived share are untouched.
    proof fn lemma_outbound_preserved(pre: KeygenEngine, post: KeygenEngine, m: KeygenMsg)
        requires
            pre.outbound_ok(m),
            post.local_index() == pre.local_index(),
            post.parties() == pre.parties(),
            post.dkg_state().my_coeffs() == pre.dkg_state().my_coeffs(),
            post.dkg_state().my_commitments() == pre.dkg_state().my_commitments(),
            m matches KeygenMsg::PkShareBroadcast(_) ==> post.dkg_state().secret_share_view()
                == pre.dkg_state().secret_share_view(),
        ensures
            post.outbound_ok(m),
    {
    }

    /// The public-key share attributed to party `j` in the aggregation
    /// round: this party's own derived share, or the share `j` broadcast.
    pub open spec fn pk_input_at(self, j: int) -> Seq<u8> {
        if j == self.local_index() {
            self.pk_share_view()->Some_0
        } else {
            self.router_state().slot(4, j)->Some_0
        }
    }

    /// All parties' public-key shares, in index order.
    pub open spec fn pk_inputs(self) -> Seq<Seq<u8>> {
        Seq::new(self.parties() as nat, |j: int| self.pk_input_at(j))
    }

    /// The router drops the message without filing it: its round is already
    /// complete, or it is a point-to-point share addressed to another party.
    pub open spec fn ignorable(self, m: KeygenMsg) -> bool {
        ||| (keygen_msg_round(m) as int) < self.router_state().closed_before()
        ||| (m matches KeygenMsg::DkgRound2(x) && x.destination as int != self.local_index())
    }

    /// The message now sits in its router slot.
    pub open spec fn filed(self, m: KeygenMsg) -> bool {
        self.router_state().slot(keygen_msg_round(m) as int, keygen_msg_source(m) as int) == Some(
            keygen_msg_payload(m),
        )
    }

    /// The router turns the message away: its claimed sender is outside the
    /// cohort or the local party, or that sender already delivered in the
    /// message's round.
    pub open spec fn filing_rejected(self, m: KeygenMsg) -> bool {
        let src = keygen_msg_source(m) as int;
        ||| src >= self.parties()
        ||| src == self.local_index()
        ||| self.router_state().slot(keygen_msg_round(m) as int, src) is Some
    }

    /// Filing the message completes the outstanding round: it is the one
    /// message that round was still waiting for.
    pub open spec fn completes_outstanding(self, m: KeygenMsg) -> bool {
        let r = self.router_state();
        let round = keygen_msg_round(m) as int;
        let src = keygen_msg_source(m) as int;
        &&& round == r.closed_before()
        &&& 0 <= src < r.parties()
        &&& src != r.local_index()
        &&& r.slot(round, src) is None
        &&& forall|j: int|
            0 <= j < r.parties() && j != r.local_index() && j != src ==> (#[trigger] r.slot(
                round,
                j,
            )) is Some
    }

    /// The message is a well-formed outbound item of this engine: its kind's
    /// payload is exactly what the protocol prescribes from this party's
    /// polynomial, commitments, or derived key share.
    pub open spec fn outbound_ok(self, m: KeygenMsg) -> bool {
        match m {
            KeygenMsg::DkgRound1(x) => x.source as int == self.local_index() && x.payload@
                == crate::hashing::sha256_of(
                crate::encoding::concat_spec(self.dkg_state().my_commitments()),
            ),
            KeygenMsg::DkgRound2(x) => {
                &&& x.source as int == self.local_index()
                &&& (x.destination as int) < self.parties()
                &&& x.destination as int != self.local_index()
                &&& x.payload@ == crate::dkg::poly_eval_spec(
                    self.dkg_state().my_coeffs(),
                    crate::encoding::index_scalar_spec((x.destination + 1) as u64),
                )
            },
            KeygenMsg::DkgRound3(x) => x.source as int == self.local_index() && x.payload@
                == crate::encoding::concat_spec(self.dkg_state().my_commitments()),
            KeygenMsg::DkgRound4(x) => x.source as int == self.local_index() && x.payload@ == seq![
                1u8,
            ],
            KeygenMsg::PkShareBroadcast(x) => {
                &&& x.source as int == self.local_index()
                &&& self.dkg_state().secret_share_view() matches Some(sk) && x.data@ == bls_pk_of(
                    sk,
                )
            },
        }
    }

    /// A fresh engine and the round-1 broadcast to publish before
    /// listening.
    pub fn new(i: u16, t: u16, n: u16, call_id: u64) -> (r: Result<
        (KeygenEngine, Vec<KeygenMsg>),
        KeygenError,
    >)
        requires
            1 <= t <= n,
            2 <= n,
            i < n,
        ensures
            match r {
                Ok((e, msgs)) => {
                    &&& e.wf()
                    &&& e.local_index() == i as int
                    &&& e.threshold() == t as int
                    &&& e.parties() == n as int
                    &&& e.call_id_spec() == call_id
                    &&& e.router_state().closed_before() == 0
                    &&& msgs@.len() == 1
                    &&& keygen_msg_source(msgs@[0]) == i
                    &&& msgs@[0] matches KeygenMsg::DkgRound1(_)
                },
                Err(_) => false,
            },
    {
        let dkg = match DkgParticipant::new(i, t, n) {
            Ok(p) => p,
            Err(e) => {
                proof {
                    assert(false);
                }
                return Err(dkg_err(e));
            },
        };
        let mut kinds: Vec<RoundKind> = Vec::new();
        kinds.push(RoundKind::Broadcast);
        kinds.push(RoundKind::PointToPoint);
        kinds.push(RoundKind::Broadcast);
        kinds.push(RoundKind::Broadcast);
        kinds.push(RoundKind::Broadcast);
        let router = RoundRouter::new(i, n, kinds);
        let payload = dkg.round1_payload();
        let mut msgs: Vec<KeygenMsg> = Vec::new();
        msgs.push(KeygenMsg::DkgRound1(DkgRound1Msg { source: i, payload }));
        let engine = KeygenEngine { i, t, n, call_id, dkg, router, my_pk_share: None };
        proof {
            let witness: int = if i == 0 {
                1
            } else {
                0
            };
            assert(engine.router_state().slot(0, witness) is None);
            assert(!engine.router_state().complete_spec(0));
        }
        Ok((engine, msgs))
    }

    /// Files one inbound message. When it completes the outstanding round,
    /// the engine advances as far as buffered messages allow and returns
    /// the messages to publish; after the aggregation round it returns the
    /// finished key state, whose public key is exactly the aggregation of
    /// all parties' shares in index order.
    pub fn handle(&mut self, msg: KeygenMsg) -> (r: Result<KeygenProgress, KeygenError>)
        requires
            old(self).wf(),
            old(self).router_state().closed_before() < 5,
        ensures
            r is Ok ==> final(self).wf(),
            final(self).local_index() == old(self).local_index(),
            final(self).threshold() == old(self).threshold(),
            final(self).parties() == old(self).parties(),
            final(self).call_id_spec() == old(self).call_id_spec(),
            match r {
                Ok(KeygenProgress::NeedMore) => {
                    &&& final(self).router_state().closed_before() == old(
                        self,
                    ).router_state().closed_before()
                    &&& !final(self).router_state().complete_spec(
                        final(self).router_state().closed_before(),
                    )
                    &&& old(self).ignorable(msg) || final(self).filed(msg)
                },
                Ok(KeygenProgress::Send(sends)) => {
                    &&& old(self).completes_outstanding(msg)
                    &&& final(self).router_state().closed_before() > old(
                        self,
                    ).router_state().closed_before()
                    &&& final(self).router_state().closed_before() < 5
                    &&& sends@.len() >= 1
                    &&& forall|k: int|
                        0 <= k < sends@.len() ==> final(self).outbound_ok(#[trigger] sends@[k])
                },
                Ok(KeygenProgress::Finished(sends, st)) => {
                    &&& old(self).completes_outstanding(msg)
                    &&& final(self).router_state().closed_before() == 5
                    &&& forall|k: int|
                        0 <= k < sends@.len() ==> final(self).outbound_ok(#[trigger] sends@[k])
                    &&& st.call_id == old(self).call_id_spec()
                    &&& st.t as int == old(self).threshold()
                    &&& st.secret_key_bytes matches Some(sk) && sk@
                        == final(self).dkg_state().secret_share_view()->Some_0 && sk@.len() == 32
                    &&& st.uncompressed_pk matches Some(pk) && pk@ == agg_pk_of(
                        final(self).pk_inputs(),
                    ) && pk@.len() == 97
                },
                Err(e) => (e matches KeygenError::MpcError(_)) && (old(self).filing_rejected(msg)
                    || old(self).completes_outstanding(msg)),
            },
    {
        let ghost msg0 = msg;
        let (round, source, dest, payload): (u16, u16, Option<u16>, Vec<u8>) = match msg {
            KeygenMsg::DkgRound1(m) => (0, m.source, None, m.payload),
            KeygenMsg::DkgRound2(m) => (1, m.source, Some(m.destination), m.payload),
            KeygenMsg::DkgRound3(m) => (2, m.source, None, m.payload),
            KeygenMsg::DkgRound4(m) => (3, m.source, None, m.payload),
            KeygenMsg::PkShareBroadcast(m) => (4, m.source, None, m.data),
        };
        proof {
            assert(round == keygen_msg_round(msg0));
            assert(source == keygen_msg_source(msg0));
            assert(payload@ == keygen_msg_payload(msg0));
        }
        match self.router.receive(round, source, dest, payload) {
            Ok(ReceiveOutcome::Stored) => {},
            Ok(ReceiveOutcome::Ignored) => {
                return Ok(KeygenProgress::NeedMore);
            },
            Err(ProtocolError::Duplicate { .. }) => {
                return Err(mpc_err("duplicate message from one sender within a round".to_owned()));
            },
            Err(ProtocolError::BadSender { .. }) => {
                return Err(mpc_err("message from a sender outside the cohort".to_owned()));
            },
            Err(ProtocolError::MissingMessages { .. }) => {
                proof {
                    assert(false);
                }
                return Err(mpc_err("the transport misbehaved".to_owned()));
            },
        }
        let cur0 = self.router.next_round();
        if !self.router.is_complete(cur0) {
            return Ok(KeygenProgress::NeedMore);
        }
        proof {
            let rtr0 = old(self).router_state();
            let rtr1 = self.router_state();
            let cb = rtr0.closed_before();
            assert(rtr1.parties() == rtr0.parties());
            assert(rtr1.local_index() == rtr0.local_index());
            assert(cur0 as int == cb);
            assert(rtr1.complete_spec(cb));
            if keygen_msg_round(msg0) as int != cb {
                assert forall|j: int|
                    0 <= j < rtr0.parties() && j != rtr0.local_index() implies (#[trigger] rtr0.slot(
                    cb,
                    j,
                )) is Some by {
                    assert(0 <= j < rtr1.parties() && j != rtr1.local_index());
                    assert(rtr1.slot(cb, j) is Some);
                    assert(rtr1.slot(cb, j) == rtr0.slot(cb, j));
                }
                assert(rtr0.complete_spec(cb));
                assert(false);
            }
            assert forall|j: int|
                0 <= j < rtr0.parties() && j != rtr0.local_index() && j != keygen_msg_source(msg0)
                    as int implies (#[trigger] rtr0.slot(cb, j)) is Some by {
                assert(0 <= j < rtr1.parties() && j != rtr1.local_index());
                assert(rtr1.slot(cb, j) is Some);
                assert(rtr1.slot(cb, j) == rtr0.slot(cb, j));
            }
            assert(keygen_msg_round(msg0) as int == cb);
            assert((keygen_msg_source(msg0) as int) < rtr0.parties());
            assert(keygen_msg_source(msg0) as int != rtr0.local_index());
            assert(rtr0.slot(cb, keygen_msg_source(msg0) as int) is None);
            assert(old(self).completes_outstanding(msg0));
        }
        let mut sends: Vec<KeygenMsg> = Vec::new();
        let mut finished: Option<BlsState> = None;
        let mut done: bool = false;
        while !done
            invariant
                self.wf_core(),
                self.local_index() == old(self).local_index(),
                self.threshold() == old(self).threshold(),
                self.parties() == old(self).parties(),
                self.call_id_spec() == old(self).call_id_spec(),
                self.router_state().closed_before() > old(self).router_state().closed_before()
                    ==> sends@.len() >= 1 || finished is Some,
                self.router_state().closed_before() >= old(self).router_state().closed_before(),
                sends@.len() >= 1 || finished is Some ==> self.router_state().closed_before()
                    > old(self).router_state().closed_before(),
                forall|k: int| 0 <= k < sends@.len() ==> self.outbound_ok(#[trigger] sends@[k]),
                self.router_state().closed_before() <= 3 ==> forall|k: int|
                    0 <= k < sends@.len() ==> !((#[trigger] sends@[k])
                        matches KeygenMsg::PkShareBroadcast(_)),
                finished is Some ==> self.router_state().closed_before() == 5,
                finished matches Some(st) ==> st.call_id == old(self).call_id_spec() && st.t as int
                    == old(self).threshold() && (st.secret_key_bytes matches Some(sk) && sk@
                    == self.dkg_state().secret_share_view()->Some_0 && sk@.len() == 32) && (
                st.uncompressed_pk matches Some(pk) && pk@ == agg_pk_of(self.pk_inputs())
                    && pk@.len() == 97),
                finished is None ==> self.router_state().closed_before() < 5,
                old(self).completes_outstanding(msg),
                finished is None && self.router_state().closed_before() == old(
                    self,
                ).router_state().closed_before() ==> self.router_state().complete_spec(
                    self.router_state().closed_before(),
                ),
                done ==> self.router_state().closed_before() == 5 || !self.router_state(
                ).complete_spec(self.router_state().closed_before()),
            decreases
                    5 - self.router_state().closed_before(),
                    (if done {
                        0int
                    } else {
                        1int
                    }),
        {
            if finished.is_some() {
                done = true;
                continue ;
            }
            let cur = self.router.next_round();
            if cur >= 5 {
                done = true;
                continue ;
            }
            if !self.router.is_complete(cur) {
                done = true;
                continue ;
            }
            let ghost ghost_pre_router = self.router;
            let ghost eng0 = *self;
            let ghost sends0 = sends@;
            let msgs = match self.router.complete(cur) {
                Ok(m) => m,
                Err(_) => {
                    proof {
                        assert(false);
                    }
                    return Err(mpc_err("the transport misbehaved".to_owned()));
                },
            };
            if cur == 0 {
                match self.dkg.receive_all_round1(&msgs) {
                    Ok(()) => {},
                    Err(e) => {
                        return Err(dkg_err(e));
                    },
                }
                let outs = match self.dkg.begin_round2() {
                    Ok(o) => o,
                    Err(e) => {
                        return Err(dkg_err(e));
                    },
                };
                let ghost dkg_after = self.dkg_state();
                let ghost sends_before = sends@;
                proof {
                    assert forall|k2: int|
                        0 <= k2 < outs@.len() implies #[trigger] outs@[k2].0 as int == sender_at(
                        k2,
                        self.local_index(),
                    ) && outs@[k2].1@ == crate::dkg::poly_eval_spec(
                        self.dkg_state().my_coeffs(),
                        crate::encoding::index_scalar_spec(
                            (sender_at(k2, self.local_index()) + 1) as u64,
                        ),
                    ) by {}
                }
                let mut k: usize = 0;
                while k < outs.len()
                    invariant
                        k <= outs@.len(),
                        self.wf_core(),
                        dkg_after == self.dkg_state(),
                        sends@.len() == sends_before.len() + k,
                        forall|k2: int|
                            0 <= k2 < sends_before.len() ==> #[trigger] sends@[k2]
                                == sends_before[k2],
                        forall|k2: int|
                            sends_before.len() <= k2 < sends@.len() ==> !((#[trigger] sends@[k2])
                                matches KeygenMsg::PkShareBroadcast(_)),
                        self.parties() == old(self).parties(),
                        self.local_index() == old(self).local_index(),
                        outs@.len() == self.parties() - 1,
                        forall|k2: int|
                            0 <= k2 < outs@.len() ==> #[trigger] outs@[k2].0 as int == sender_at(
                                k2,
                                self.local_index(),
                            ) && outs@[k2].1@ == crate::dkg::poly_eval_spec(
                                self.dkg_state().my_coeffs(),
                                crate::encoding::index_scalar_spec(
                                    (sender_at(k2, self.local_index()) + 1) as u64,
                                ),
                            ),
                        forall|k2: int|
                            0 <= k2 < sends@.len() ==> self.outbound_ok(#[trigger] sends@[k2]),
                    decreases outs@.len() - k,
                {
                    let dest_party = outs[k].0;
                    let share = copy_bytes(&outs[k].1);
                    proof {
                        crate::router::lemma_sender_at_bounds(
                            k as int,
                            self.local_index(),
                            self.parties(),
                        );
                    }
                    sends.push(
                        KeygenMsg::DkgRound2(
                            DkgRound2Msg {
                                source: self.i,
                                destination: dest_party,
                                payload: share,
                            },
                        ),
                    );
                    proof {
                        assert(self.outbound_ok(sends@[sends@.len() - 1]));
                    }
                    k += 1;
                }
            } else if cur == 1 {
                match self.dkg.receive_all_round2(&msgs) {
                    Ok(()) => {},
                    Err(e) => {
                        return Err(dkg_err(e));
                    },
                }
                let payload3 = self.dkg.begin_round3();
                sends.push(KeygenMsg::DkgRound3(DkgRound3Msg { source: self.i, payload: payload3 }));
                proof {
                    assert(self.outbound_ok(sends@[sends@.len() - 1]));
                }
            } else if cur == 2 {
                match self.dkg.receive_all_round3(&msgs) {
                    Ok(()) => {},
                    Err(e) => {
                        return Err(dkg_err(e));
                    },
                }
                let payload4 = self.dkg.begin_round4();
                sends.push(KeygenMsg::DkgRound4(DkgRound4Msg { source: self.i, payload: payload4 }));
                proof {
                    assert(self.outbound_ok(sends@[sends@.len() - 1]));
                }
            } else if cur == 3 {
                match self.dkg.receive_all_round4(&msgs) {
                    Ok(()) => {},
                    Err(e) => {
                        return Err(dkg_err(e));
                    },
                }
                match self.dkg.finalize() {
                    Ok(()) => {},
                    Err(e) => {
                        return Err(dkg_err(e));
                    },
                }
                let secret = match self.dkg.get_secret_share() {
                    Some(s) => s,
                    None => {
                        return Err(mpc_err("no secret share after the final round".to_owned()));
                    },
                };
                let pk_share = match pk_share_from_secret(&secret) {
                    Some(p) => p,
                    None => {
                        return Err(mpc_err("secret share is not a usable key".to_owned()));
                    },
                };
                let pk_copy = copy_bytes(&pk_share);
                self.my_pk_share = Some(pk_share);
                sends.push(
                    KeygenMsg::PkShareBroadcast(PkShareMsg { source: self.i, data: pk_copy }),
                );
                proof {
                    assert(self.outbound_ok(sends@[sends@.len() - 1]));
                }
            } else {
                // cur == 4: aggregate every party's public-key share
                proof {
                    assert(ghost_pre_router.round_output_ok(cur as int, msgs@));
                    assert(ghost_pre_router.local_index() == self.local_index());
                    assert forall|k2: int|
                        0 <= k2 < msgs@.len() implies #[trigger] msgs@[k2].0 as int == sender_at(
                        k2,
                        self.local_index(),
                    ) && Some(msgs@[k2].1@) == self.router_state().slot(
                        4,
                        sender_at(k2, self.local_index()),
                    ) by {
                        crate::router::lemma_sender_at_bounds(
                            k2,
                            self.local_index(),
                            self.parties(),
                        );
                        assert(msgs@[k2].0 as int == sender_at(
                            k2,
                            ghost_pre_router.local_index(),
                        ));
                        assert(Some(msgs@[k2].1@) == ghost_pre_router.slot(
                            cur as int,
                            sender_at(k2, ghost_pre_router.local_index()),
                        ));
                        assert(self.router_state().slot(4, sender_at(k2, self.local_index()))
                            == ghost_pre_router.slot(4, sender_at(k2, self.local_index())));
                    }
                }
                let mut shares: Vec<Vec<u8>> = Vec::new();
                let mut j: u16 = 0;
                while j < self.n
                    invariant
                        self.wf(),
                        self.router_state().closed_before() == 5,
                        self.parties() == old(self).parties(),
                        self.local_index() == old(self).local_index(),
                        j <= self.n,
                        shares@.len() == j as int,
                        msgs@.len() == self.parties() - 1,
                        forall|k2: int|
                            0 <= k2 < msgs@.len() ==> #[trigger] msgs@[k2].0 as int == sender_at(
                                k2,
                                self.local_index(),
                            ) && Some(msgs@[k2].1@) == self.router_state().slot(
                                4,
                                sender_at(k2, self.local_index()),
                            ),
                        forall|j2: int|
                            0 <= j2 < j as int ==> shares.deep_view()[j2] == self.pk_input_at(j2),
                    decreases self.n - j,
                {
                    let share_j: Vec<u8> = if j == self.i {
                        match &self.my_pk_share {
                            Some(p) => copy_bytes(p),
                            None => {
                                proof {
                                    assert(false);
                                }
                                return Err(mpc_err("own share missing".to_owned()));
                            },
                        }
                    } else {
                        proof {
                            crate::router::lemma_sender_at_covers(
                                self.local_index(),
                                self.parties(),
                                j as int,
                            );
                        }
                        let k2: usize = if j < self.i {
                            j as usize
                        } else {
                            j as usize - 1
                        };
                        proof {
                            assert(msgs@[k2 as int].0 as int == sender_at(
                                k2 as int,
                                self.local_index(),
                            ));
                            assert(sender_at(k2 as int, self.local_index()) == j as int);
                        }
                        copy_bytes(&msgs[k2].1)
                    };
                    proof {
                        assert(share_j@ == self.pk_input_at(j as int));
                    }
                    shares.push(share_j);
                    proof {
                        assert(shares.deep_view()[j as int] == shares@[j as int]@);
                        assert forall|j2: int|
                            0 <= j2 < j as int + 1 implies shares.deep_view()[j2]
                            == self.pk_input_at(j2) by {
                            assert(shares.deep_view()[j2] == shares@[j2]@);
                        }
                    }
                    j += 1;
                }
                proof {
                    assert(shares.deep_view() =~= self.pk_inputs());
                }
                let agg = match aggregate_pk_shares(&shares) {
                    Some(a) => a,
                    None => {
                        return Err(mpc_err("failed to aggregate public-key shares".to_owned()));
                    },
                };
                proof {
                    self.dkg.lemma_completed_has_outputs();
                }
                let secret = match self.dkg.get_secret_share() {
                    Some(s) => s,
                    None => {
                        proof {
                            assert(false);
                        }
                        return Err(mpc_err("no secret share after the final round".to_owned()));
                    },
                };
                finished = Some(
                    BlsState {
                        secret_key_bytes: Some(secret),
                        uncompressed_pk: Some(agg),
                        call_id: self.call_id,
                        t: self.t,
                    },
                );
            }
            proof {
                assert forall|kk: int|
                    0 <= kk < sends@.len() implies self.outbound_ok(#[trigger] sends@[kk]) by {
                    if kk < sends0.len() {
                        assert(sends@[kk] == sends0[kk]);
                        Self::lemma_outbound_preserved(eng0, *self, sends@[kk]);
                    }
                }
            }
        }
        match finished {
            Some(st) => Ok(KeygenProgress::Finished(sends, st)),
            None => {
                if sends.len() > 0 {
                    Ok(KeygenProgress::Send(sends))
                } else {
                    proof {
                        assert(false);
                    }
                    Ok(KeygenProgress::NeedMore)
                }
            },
        }
    }

    /// The failure to report when the inbound sequence ends while a round
    /// is still outstanding: the set of senders the round is missing. The
    /// engine is spent afterwards.
    pub fn input_closed(&mut self) -> (r: KeygenError)
        requires
            old(self).wf(),
            old(self).router_state().closed_before() < 5,
        ensures
            ({
                let round = old(self).router_state().closed_before();
                r matches KeygenError::MpcError(m) && exists|ms: Seq<u16>|
                    old(self).router_state().missing_set_ok(round, ms) && m@
                        == #[trigger] crate::router::missing_text_of((round + 1) as u16, ms)
            }),
    {
        let cur = self.router.next_round();
        match self.router.complete(cur) {
            Ok(_) => {
                proof {
                    assert(false);
                }
                mpc_err("the job was abandoned with its rounds complete".to_owned())
            },
            Err(ProtocolError::MissingMessages { round, missing }) => {
                let text = crate::router::missing_messages_text(round + 1, &missing);
                proof {
                    assert(old(self).router_state().missing_set_ok(cur as int, missing@));
                }
                mpc_err(text)
            },
            Err(_) => {
                proof {
                    assert(false);
                }
                mpc_err("the transport misbehaved".to_owned())
            },
        }
    }
}

} // verus!
