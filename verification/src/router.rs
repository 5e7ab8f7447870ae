//! Per-job round router: demultiplexes inbound protocol messages into
//! per-round slots, enforces the sender rules, and yields a round's messages
//! once one has arrived from every other party.
//!
//! Each round expects exactly one message from every party other than the
//! local one. Messages for rounds ahead of the outstanding round are
//! buffered (at most one per sender and round); messages for rounds already
//! completed are dropped; a second message from the same sender within a
//! round is a protocol error.
use vstd::prelude::*;

verus! {

/// What a round expects: one broadcast from every peer, or one
/// point-to-point message addressed to the local party from every peer.
#[derive(Clone, Copy, Debug)]
pub enum RoundKind {
    Broadcast,
    PointToPoint,
}

/// Round-protocol failures surfaced by the router.
#[derive(Clone, Debug, PartialEq, Eq)]
pub enum ProtocolError {
    /// The inbound sequence ended before the round saw a message from every
    /// listed sender.
    MissingMessages { round: u16, missing: Vec<u16> },
    /// A second message from the same sender within one round.
    Duplicate { round: u16, sender: u16 },
    /// A sender index outside the cohort, or the local party itself.
    BadSender { round: u16, sender: u16 },
}

/// The router's verdict on one inbound message.
#[derive(Clone, Copy, Debug, PartialEq, Eq, Structural)]
pub enum ReceiveOutcome {
    /// The message was placed in its round slot.
    Stored,
    /// The message was dropped: its round is already complete, or it was a
    /// point-to-point message addressed to another party.
    Ignored,
}

/// Buffers inbound messages by `(round, sender)` for one protocol session.
#[derive(Debug)]
pub struct RoundRouter {
    n: u16,
    i: u16,
    kinds: Vec<RoundKind>,
    current: usize,
    slots: Vec<Vec<Option<Vec<u8>>>>,
}

/// The rendering of a missing-messages failure from its round number and
/// sorted missing sender set.
pub uninterp spec fn missing_text_of(round: u16, missing: Seq<u16>) -> Seq<char>;

/// Relies on std's formatting of a `u16` and a `Vec<u16>` debug list, a
/// function of the values alone.
#[verifier::external_body]
pub(crate) fn missing_messages_text(round: u16, missing: &Vec<u16>) -> (r: String)
    ensures
        r@ == missing_text_of(round, missing@),
{
    format!("MissingMessages: round={}, missing={:?}", round, missing)
}

/// The sender holding position `k` in a completed round's output: party
/// indices ascend and skip the local index `i`.
pub open spec fn sender_at(k: int, i: int) -> int {
    if k < i {
        k
    } else {
        k + 1
    }
}

impl RoundRouter {
    /// Cohort size.
    pub closed spec fn parties(self) -> int {
        self.n as int
    }

    /// The local party's index.
    pub closed spec fn local_index(self) -> int {
        self.i as int
    }

    /// The declared rounds, in order.
    pub closed spec fn round_kinds(self) -> Seq<RoundKind> {
        self.kinds@
    }

    /// Rounds strictly before this index have been completed.
    pub closed spec fn closed_before(self) -> int {
        self.current as int
    }

    /// The buffered payload from `sender` in `round`, if one arrived.
    pub closed spec fn slot(self, round: int, sender: int) -> Option<Seq<u8>> {
        match self.slots@[round]@[sender] {
            Some(p) => Some(p@),
            None => None,
        }
    }

    /// Structural invariant: one slot row per declared round, one slot per
    /// party, and the local party's slot always empty.
    pub closed spec fn wf(self) -> bool {
        &&& 2 <= self.n
        &&& self.i < self.n
        &&& self.slots@.len() == self.kinds@.len()
        &&& self.current as int <= self.kinds@.len()
        &&& forall|r: int| 0 <= r < self.slots@.len() ==> (#[trigger] self.slots@[r])@.len()
            == self.n as int
        &&& forall|r: int| 0 <= r < self.slots@.len() ==> (#[trigger] self.slots@[r])@[self.i as int]
            is None
    }

    /// A round is complete when a message is buffered from every other party.
    pub open spec fn complete_spec(self, round: int) -> bool {
        forall|s: int|
            0 <= s < self.parties() && s != self.local_index() ==> (#[trigger] self.slot(
                round,
                s,
            )) is Some
    }

    /// Both routers route for the same cohort and round table.
    pub open spec fn same_session(self, other: RoundRouter) -> bool {
        &&& other.parties() == self.parties()
        &&& other.local_index() == self.local_index()
        &&& other.round_kinds() == self.round_kinds()
    }

    /// All slots of `round` agree between the two states.
    pub open spec fn round_unchanged(self, other: RoundRouter, round: int) -> bool {
        forall|s: int| 0 <= s < self.parties() ==> self.slot(round, s) == #[trigger] other.slot(
            round,
            s,
        )
    }

    /// All slots of every round agree between the two states.
    pub open spec fn slots_unchanged(self, other: RoundRouter) -> bool {
        forall|r: int, s: int|
            0 <= r < self.round_kinds().len() && 0 <= s < self.parties() ==> self.slot(r, s)
                == #[trigger] other.slot(r, s)
    }

    /// A fresh router for a session of `n` parties with local index `i` and
    /// the given round table: nothing buffered, no round closed.
    pub fn new(i: u16, n: u16, kinds: Vec<RoundKind>) -> (r: RoundRouter)
        requires
            2 <= n,
            i < n,
        ensures
            r.wf(),
            r.parties() == n as int,
            r.local_index() == i as int,
            r.round_kinds() == kinds@,
            r.closed_before() == 0,
            forall|ri: int, s: int|
                0 <= ri < kinds@.len() && 0 <= s < n as int ==> #[trigger] r.slot(ri, s) is None,
    {
        let mut slots: Vec<Vec<Option<Vec<u8>>>> = Vec::new();
        let mut r: usize = 0;
        while r < kinds.len()
            invariant
                r <= kinds@.len(),
                slots@.len() == r,
                forall|ri: int| 0 <= ri < r ==> (#[trigger] slots@[ri])@.len() == n as int,
                forall|ri: int, s: int|
                    #![trigger slots@[ri]@[s]]
                    0 <= ri < r && 0 <= s < n as int ==> slots@[ri]@[s] is None,
            decreases kinds@.len() - r,
        {
            let mut row: Vec<Option<Vec<u8>>> = Vec::new();
            let mut s: usize = 0;
            while s < n as usize
                invariant
                    s <= n as usize,
                    row@.len() == s,
                    forall|j: int| 0 <= j < s ==> row@[j] is None,
                decreases n as usize - s,
            {
                row.push(None);
                s += 1;
            }
            slots.push(row);
            proof {
                assert(slots@[r as int]@.len() == n as int);
            }
            r += 1;
        }
        proof {
            assert forall|ri: int| 0 <= ri < kinds@.len() implies (#[trigger] slots@[ri])@[i as int]
                is None by {
                assert(slots@[ri]@[i as int] is None);
            }
        }
        RoundRouter { n, i, kinds, current: 0, slots }
    }

    /// Files one inbound message under `(round, source)`.
    ///
    /// A sender outside `[0, n)` or equal to the local index is a protocol
    /// error whatever the round. Messages for rounds already completed are
    /// dropped, as are point-to-point messages addressed to another party.
    /// A second message from the same sender within a round is rejected and
    /// the first is kept.
    pub fn receive(
        &mut self,
        round: u16,
        source: u16,
        dest: Option<u16>,
        payload: Vec<u8>,
    ) -> (r: Result<ReceiveOutcome, ProtocolError>)
        requires
            old(self).wf(),
            (round as int) < old(self).round_kinds().len(),
        ensures
            final(self).wf(),
            old(self).same_session(*final(self)),
            final(self).closed_before() == old(self).closed_before(),
            match r {
                Ok(ReceiveOutcome::Stored) => {
                    &&& source as int != old(self).local_index()
                    &&& (source as int) < old(self).parties()
                    &&& round as int >= old(self).closed_before()
                    &&& old(self).slot(round as int, source as int) is None
                    &&& final(self).slot(round as int, source as int) == Some(payload@)
                    &&& forall|r2: int, s2: int|
                        0 <= r2 < old(self).round_kinds().len() && 0 <= s2 < old(self).parties()
                            && !(r2 == round as int && s2 == source as int) ==> old(self).slot(
                            r2,
                            s2,
                        ) == #[trigger] final(self).slot(r2, s2)
                },
                Ok(ReceiveOutcome::Ignored) => {
                    &&& *final(self) == *old(self)
                    &&& old(self).slots_unchanged(*final(self))
                    &&& source as int != old(self).local_index()
                    &&& (source as int) < old(self).parties()
                    &&& (round as int) < old(self).closed_before() || (old(
                        self,
                    ).round_kinds()[round as int] is PointToPoint && !(dest matches Some(d) && d
                        as int == old(self).local_index()))
                },
                Err(ProtocolError::Duplicate { round: er, sender: es }) => {
                    &&& old(self).slots_unchanged(*final(self))
                    &&& er == round && es == source
                    &&& round as int >= old(self).closed_before()
                    &&& old(self).slot(round as int, source as int) is Some
                },
                Err(ProtocolError::BadSender { round: er, sender: es }) => {
                    &&& *final(self) == *old(self)
                    &&& old(self).slots_unchanged(*final(self))
                    &&& er == round && es == source
                    &&& (source as int >= old(self).parties() || source as int == old(
                        self,
                    ).local_index())
                },
                Err(ProtocolError::MissingMessages { .. }) => false,
            },
    {
        if source >= self.n || source == self.i {
            return Err(ProtocolError::BadSender { round, sender: source });
        }
        if (round as usize) < self.current {
            return Ok(ReceiveOutcome::Ignored);
        }
        let is_p2p = match self.kinds[round as usize] {
            RoundKind::PointToPoint => true,
            RoundKind::Broadcast => false,
        };
        if is_p2p {
            let addressed_to_me = match dest {
                Some(d) => d == self.i,
                None => false,
            };
            if !addressed_to_me {
                return Ok(ReceiveOutcome::Ignored);
            }
        }
        let row = &mut self.slots[round as usize];
        let filled = match &row[source as usize] {
            Some(_) => true,
            None => false,
        };
        if filled {
            return Err(ProtocolError::Duplicate { round, sender: source });
        }
        row[source as usize] = Some(payload);
        Ok(ReceiveOutcome::Stored)
    }

    /// The first round not yet completed.
    pub fn next_round(&self) -> (r: u16)
        requires
            self.wf(),
            self.round_kinds().len() <= u16::MAX,
        ensures
            r as int == self.closed_before(),
    {
        self.current as u16
    }

    /// Whether the round has a buffered message from every other party.
    pub fn is_complete(&self, round: u16) -> (r: bool)
        requires
            self.wf(),
            (round as int) < self.round_kinds().len(),
        ensures
            r == self.complete_spec(round as int),
    {
        let mut s: u16 = 0;
        while s < self.n
            invariant
                self.wf(),
                (round as int) < self.round_kinds().len(),
                s <= self.n,
                forall|j: int|
                    0 <= j < s as int && j != self.local_index() ==> (#[trigger] self.slot(
                        round as int,
                        j,
                    )) is Some,
            decreases self.n - s,
        {
            if s != self.i {
                let present = match &self.slots[round as usize][s as usize] {
                    Some(_) => true,
                    None => false,
                };
                if !present {
                    proof {
                        assert(self.slot(round as int, s as int) is None);
                    }
                    return false;
                }
            }
            s += 1;
        }
        true
    }

    /// The completed round's output: one entry per other party, sender
    /// indices ascending, each carrying that sender's buffered payload.
    pub open spec fn round_output_ok(self, round: int, msgs: Seq<(u16, Vec<u8>)>) -> bool {
        &&& msgs.len() == self.parties() - 1
        &&& forall|k: int|
            0 <= k < msgs.len() ==> #[trigger] msgs[k].0 as int == sender_at(
                k,
                self.local_index(),
            ) && Some(msgs[k].1@) == self.slot(round, sender_at(k, self.local_index()))
    }

    /// `missing` lists exactly the other parties without a buffered message
    /// in `round`, in ascending order.
    pub open spec fn missing_set_ok(self, round: int, missing: Seq<u16>) -> bool {
        &&& forall|k: int|
            0 <= k < missing.len() ==> (#[trigger] missing[k] as int) < self.parties()
                && missing[k] as int != self.local_index() && self.slot(round, missing[k] as int)
                is None
        &&& forall|s: int|
            0 <= s < self.parties() && s != self.local_index() && self.slot(round, s) is None
                ==> missing.contains(s as u16)
        &&& forall|k1: int, k2: int| 0 <= k1 < k2 < missing.len() ==> missing[k1] < missing[k2]
    }

    /// Closes the round and hands out its messages, one per sender, in
    /// ascending sender order. Fails with the sorted set of missing senders
    /// if any other party has not delivered yet.
    #[verifier::rlimit(30)]
    #[verifier::spinoff_prover]
    pub fn complete(&mut self, round: u16) -> (r: Result<Vec<(u16, Vec<u8>)>, ProtocolError>)
        requires
            old(self).wf(),
            (round as int) < old(self).round_kinds().len(),
            round as int == old(self).closed_before(),
        ensures
            final(self).wf(),
            old(self).same_session(*final(self)),
            old(self).slots_unchanged(*final(self)),
            match r {
                Ok(msgs) => {
                    &&& old(self).complete_spec(round as int)
                    &&& final(self).closed_before() == round as int + 1
                    &&& old(self).round_output_ok(round as int, msgs@)
                },
                Err(ProtocolError::MissingMessages { round: er, missing }) => {
                    &&& !old(self).complete_spec(round as int)
                    &&& final(self).closed_before() == old(self).closed_before()
                    &&& er == round
                    &&& old(self).missing_set_ok(round as int, missing@)
                },
                Err(ProtocolError::Duplicate { .. }) => false,
                Err(ProtocolError::BadSender { .. }) => false,
            },
    {
        if self.is_complete(round) {
            let ghost pre = *self;
            let mut out: Vec<(u16, Vec<u8>)> = Vec::new();
            let mut s: u16 = 0;
            while s < self.n
                invariant
                    self.wf(),
                    *self == pre,
                    (round as int) < self.round_kinds().len(),
                    self.complete_spec(round as int),
                    s <= self.n,
                    out@.len() == if s as int <= self.local_index() {
                        s as int
                    } else {
                        s as int - 1
                    },
                    forall|k: int|
                        0 <= k < out@.len() ==> #[trigger] out@[k].0 as int == sender_at(
                            k,
                            self.local_index(),
                        ) && Some(out@[k].1@) == self.slot(
                            round as int,
                            sender_at(k, self.local_index()),
                        ),
                decreases self.n - s,
            {
                if s != self.i {
                    let payload = match &self.slots[round as usize][s as usize] {
                        Some(p) => crate::encoding::copy_bytes(p),
                        None => {
                            proof {
                                assert(self.slot(round as int, s as int) is Some);
                            }
                            // complete_spec rules this branch out
                            return Err(ProtocolError::BadSender { round, sender: s });
                        },
                    };
                    out.push((s, payload));
                }
                s += 1;
            }
            self.current = round as usize + 1;
            proof {
                assert(pre.round_output_ok(round as int, out@));
                assert(pre.complete_spec(round as int));
            }
            Ok(out)
        } else {
            let mut missing: Vec<u16> = Vec::new();
            let mut s: u16 = 0;
            while s < self.n
                invariant
                    self.wf(),
                    (round as int) < self.round_kinds().len(),
                    s <= self.n,
                    forall|k: int|
                        0 <= k < missing@.len() ==> ((#[trigger] missing@[k]) < s
                            && missing@[k] as int != self.local_index()
                            && self.slot(round as int, missing@[k] as int) is None),
                    forall|j: int|
                        0 <= j < s as int && j != self.local_index() && self.slot(round as int, j)
                            is None ==> missing@.contains(j as u16),
                    forall|k1: int, k2: int|
                        0 <= k1 < k2 < missing@.len() ==> missing@[k1] < missing@[k2],
                decreases self.n - s,
            {
                if s != self.i {
                    let present = match &self.slots[round as usize][s as usize] {
                        Some(_) => true,
                        None => false,
                    };
                    if !present {
                        let ghost m0 = missing@;
                        missing.push(s);
                        proof {
                            assert(missing@[missing@.len() - 1] == s);
                            assert(missing@.contains(s));
                            assert forall|j: int|
                                0 <= j < s as int && j != self.local_index() && self.slot(
                                    round as int,
                                    j,
                                ) is None implies missing@.contains(j as u16) by {
                                let k = choose|k: int| 0 <= k < m0.len() && m0[k] == j as u16;
                                assert(missing@[k] == j as u16);
                            }
                        }
                    }
                }
                s += 1;
            }
            Err(ProtocolError::MissingMessages { round, missing })
        }
    }
}

/// A completed round's output positions map to senders inside the cohort,
/// never to the local party.
pub proof fn lemma_sender_at_bounds(k: int, i: int, n: int)
    requires
        0 <= k < n - 1,
        0 <= i < n,
    ensures
        0 <= sender_at(k, i) < n,
        sender_at(k, i) != i,
{
}

/// Every other party appears in a completed round's output: party `j` holds
/// position `j` when it precedes the local party, else position `j - 1`.
pub proof fn lemma_sender_at_covers(i: int, n: int, j: int)
    requires
        0 <= i < n,
        0 <= j < n,
        j != i,
    ensures
        0 <= (if j < i { j } else { j - 1 }) < n - 1,
        sender_at(if j < i { j } else { j - 1 }, i) == j,
{
}

/// Round isolation: filing a message under one round leaves every other
/// round's completeness untouched, whatever the router did with it.
pub proof fn lemma_round_isolation(
    pre: RoundRouter,
    post: RoundRouter,
    round: int,
    other: int,
)
    requires
        pre.same_session(post),
        pre.round_unchanged(post, other),
        other != round,
    ensures
        post.complete_spec(other) == pre.complete_spec(other),
{
    assert(forall|s: int|
        0 <= s < pre.parties() ==> pre.slot(other, s) == #[trigger] post.slot(other, s));
    if pre.complete_spec(other) {
        assert forall|s: int|
            0 <= s < post.parties() && s != post.local_index() implies (#[trigger] post.slot(
            other,
            s,
        )) is Some by {
            assert(pre.slot(other, s) is Some);
        }
    }
    if post.complete_spec(other) {
        assert forall|s: int|
            0 <= s < pre.parties() && s != pre.local_index() implies (#[trigger] pre.slot(
            other,
            s,
        )) is Some by {
            assert(post.slot(other, s) is Some);
        }
    }
}

} // verus!
