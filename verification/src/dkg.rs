//! The distributed key generation participant: a five-round
//! commit–share–reveal–verify protocol over a prime-order group, followed by
//! a local combine step. Each party commits to a random polynomial, deals
//! evaluations point-to-point, reveals its Feldman coefficient commitments,
//! checks every received share against them, and finally combines the
//! verified contributions into its secret share and the group public key.
use vstd::prelude::*;
use crate::encoding::{chunks_spec, concat_chunks, concat_spec, copy_bytes, index_scalar,
    index_scalar_spec, split_chunks};
use crate::group_ops::{g1_add, g1_add_of, g1_base_mul, g1_base_mul_of, g1_mul, g1_mul_of,
    g1_ok, scalar_add, scalar_add_of, scalar_canonical, scalar_check, scalar_mul, scalar_mul_of,
    scalar_ok, scalar_random};
use crate::hashing::{sha2_256, sha256_of};
use crate::router::sender_at;

verus! {

broadcast use crate::encoding::lemma_deep_view_index;

/// Failures of the key-generation rounds.
#[derive(Clone, Copy, Debug, PartialEq, Eq, Structural)]
pub enum DkgError {
    /// A payload had the wrong size for its round.
    BadLength,
    /// A revealed commitment list does not match the hash committed to.
    BadCommitmentOpening,
    /// A received share does not lie on the sender's committed polynomial.
    BadShare,
    /// A verification round message was not the expected acknowledgement.
    BadTranscript,
    /// The combined commitments do not match the combined share.
    CombinedMismatch,
    /// A group or field operation rejected an encoding.
    Arithmetic,
}

/// The evaluation of a polynomial, given by its coefficients from the
/// constant term up, at a scalar point; Horner's rule over the field.
pub open spec fn poly_eval_spec(coeffs: Seq<Seq<u8>>, x: Seq<u8>) -> Seq<u8>
    recommends
        coeffs.len() >= 1,
    decreases coeffs.len(),
{
    if coeffs.len() <= 1 {
        coeffs[0]
    } else {
        scalar_add_of(coeffs[0], scalar_mul_of(x, poly_eval_spec(coeffs.skip(1), x)))
    }
}

/// The evaluation of a committed polynomial in the exponent: Horner's rule
/// over the group, on the Feldman commitments from the constant term up.
pub open spec fn feldman_eval_spec(cs: Seq<Seq<u8>>, x: Seq<u8>) -> Seq<u8>
    recommends
        cs.len() >= 1,
    decreases cs.len(),
{
    if cs.len() <= 1 {
        cs[0]
    } else {
        g1_add_of(cs[0], g1_mul_of(feldman_eval_spec(cs.skip(1), x), x))
    }
}

/// The left fold of field addition over a nonempty sequence of scalars.
pub open spec fn scalar_sum_spec(elems: Seq<Seq<u8>>) -> Seq<u8>
    recommends
        elems.len() >= 1,
    decreases elems.len(),
{
    if elems.len() <= 1 {
        elems[0]
    } else {
        scalar_add_of(scalar_sum_spec(elems.drop_last()), elems.last())
    }
}

/// The left fold of group addition over a nonempty sequence of compressed
/// points.
pub open spec fn g1_sum_spec(elems: Seq<Seq<u8>>) -> Seq<u8>
    recommends
        elems.len() >= 1,
    decreases elems.len(),
{
    if elems.len() <= 1 {
        elems[0]
    } else {
        g1_add_of(g1_sum_spec(elems.drop_last()), elems.last())
    }
}

/// Every input to a polynomial evaluation is a canonical encoding.
pub open spec fn poly_inputs_ok(coeffs: Seq<Seq<u8>>, x: Seq<u8>) -> bool {
    scalar_ok(x) && (forall|k: int| 0 <= k < coeffs.len() ==> scalar_ok(#[trigger] coeffs[k]))
}

/// Evaluates a polynomial at a point. Succeeds whenever every input is a
/// canonical encoding; `None` only when one is not.
fn poly_eval(coeffs: &Vec<Vec<u8>>, x: &Vec<u8>) -> (r: Option<Vec<u8>>)
    requires
        coeffs@.len() >= 1,
    ensures
        r is Some ==> r->Some_0@ == poly_eval_spec(coeffs.deep_view(), x@),
        poly_inputs_ok(coeffs.deep_view(), x@) ==> r is Some && scalar_ok(r->Some_0@),
        r is None ==> !poly_inputs_ok(coeffs.deep_view(), x@),
{
    let ghost cs = coeffs.deep_view();
    let mut k: usize = coeffs.len() - 1;
    let mut acc: Vec<u8> = copy_bytes(&coeffs[k]);
    proof {
        assert(cs.skip(k as int).len() == 1);
        assert(cs.skip(k as int)[0] == cs[k as int]);
    }
    while k > 0
        invariant
            k < coeffs@.len(),
            cs == coeffs.deep_view(),
            cs.len() == coeffs@.len(),
            acc@ == poly_eval_spec(cs.skip(k as int), x@),
            poly_inputs_ok(cs, x@) ==> scalar_ok(acc@),
        decreases k,
    {
        k = k - 1;
        let prod = match scalar_mul(x, &acc) {
            Some(p) => p,
            None => {
                proof {
                    assert(!poly_inputs_ok(cs, x@));
                }
                return None;
            },
        };
        let sum = match scalar_add(&coeffs[k], &prod) {
            Some(s) => s,
            None => {
                proof {
                    assert(cs[k as int] == coeffs@[k as int]@);
                    assert(!scalar_ok(cs[k as int]));
                    assert(!poly_inputs_ok(cs, x@));
                }
                return None;
            },
        };
        acc = sum;
        proof {
            assert(cs.skip(k as int).len() == cs.len() - k);
            assert(cs.skip(k as int)[0] == cs[k as int]);
            assert(cs.skip(k as int).skip(1) =~= cs.skip(k as int + 1));
        }
    }
    proof {
        assert(cs.skip(0) =~= cs);
    }
    Some(acc)
}

/// Every input to a committed-polynomial evaluation is a canonical
/// encoding.
pub open spec fn feldman_inputs_ok(cs: Seq<Seq<u8>>, x: Seq<u8>) -> bool {
    scalar_ok(x) && (forall|k: int| 0 <= k < cs.len() ==> g1_ok(#[trigger] cs[k]))
}

/// Evaluates a committed polynomial in the exponent at a point. Succeeds
/// whenever every input is a canonical encoding; `None` only when one is
/// not; and a success on more than one commitment certifies every input.
fn feldman_eval(cs_exec: &Vec<Vec<u8>>, x: &Vec<u8>) -> (r: Option<Vec<u8>>)
    requires
        cs_exec@.len() >= 1,
    ensures
        r is Some ==> r->Some_0@ == feldman_eval_spec(cs_exec.deep_view(), x@),
        feldman_inputs_ok(cs_exec.deep_view(), x@) ==> r is Some && g1_ok(r->Some_0@),
        r is None ==> !feldman_inputs_ok(cs_exec.deep_view(), x@),
        r is Some && cs_exec.deep_view().len() > 1 ==> feldman_inputs_ok(
            cs_exec.deep_view(),
            x@,
        ),
{
    let ghost cs = cs_exec.deep_view();
    let mut k: usize = cs_exec.len() - 1;
    let mut acc: Vec<u8> = copy_bytes(&cs_exec[k]);
    proof {
        assert(cs.skip(k as int).len() == 1);
        assert(cs.skip(k as int)[0] == cs[k as int]);
    }
    while k > 0
        invariant
            k < cs_exec@.len(),
            cs == cs_exec.deep_view(),
            cs.len() == cs_exec@.len(),
            acc@ == feldman_eval_spec(cs.skip(k as int), x@),
            feldman_inputs_ok(cs, x@) ==> g1_ok(acc@),
            k < cs.len() - 1 ==> scalar_ok(x@) && g1_ok(acc@) && (forall|m: int|
                k <= m < cs.len() ==> g1_ok(#[trigger] cs[m])),
        decreases k,
    {
        k = k - 1;
        let prod = match g1_mul(&acc, x) {
            Some(p) => p,
            None => {
                proof {
                    assert(!feldman_inputs_ok(cs, x@));
                }
                return None;
            },
        };
        let sum = match g1_add(&cs_exec[k], &prod) {
            Some(s) => s,
            None => {
                proof {
                    assert(cs[k as int] == cs_exec@[k as int]@);
                    assert(!g1_ok(cs[k as int]));
                    assert(!feldman_inputs_ok(cs, x@));
                }
                return None;
            },
        };
        acc = sum;
        proof {
            assert(cs.skip(k as int).len() == cs.len() - k);
            assert(cs.skip(k as int)[0] == cs[k as int]);
            assert(cs.skip(k as int).skip(1) =~= cs.skip(k as int + 1));
        }
    }
    proof {
        assert(cs.skip(0) =~= cs);
    }
    Some(acc)
}

/// One party of the key-generation protocol. The driver feeds it each
/// completed round's payloads and asks it for the next round's outbound
/// messages; after the final round it exposes the secret share and the
/// group public key.
#[derive(Debug)]
pub struct DkgParticipant {
    i: u16,
    t: u16,
    n: u16,
    stage: u8,
    coeffs: Vec<Vec<u8>>,
    commitments: Vec<Vec<u8>>,
    peer_hashes: Vec<Option<Vec<u8>>>,
    peer_shares: Vec<Option<Vec<u8>>>,
    peer_commitments: Vec<Option<Vec<Vec<u8>>>>,
    peer_acks: Vec<bool>,
    secret_share: Option<Vec<u8>>,
    group_public: Option<Vec<u8>>,
}

impl DkgParticipant {
    /// This party's index in the cohort.
    pub closed spec fn index(self) -> int {
        self.i as int
    }

    /// The reconstruction threshold.
    pub closed spec fn threshold(self) -> int {
        self.t as int
    }

    /// The cohort size.
    pub closed spec fn parties(self) -> int {
        self.n as int
    }

    /// Protocol progress: rounds before this one have been fed completely.
    pub closed spec fn stage(self) -> int {
        self.stage as int
    }

    /// This party's polynomial coefficients, constant term first.
    pub closed spec fn my_coeffs(self) -> Seq<Seq<u8>> {
        self.coeffs.deep_view()
    }

    /// This party's Feldman coefficient commitments.
    pub closed spec fn my_commitments(self) -> Seq<Seq<u8>> {
        self.commitments.deep_view()
    }

    /// The commitment hash received from party `j`, if any.
    pub closed spec fn hash_at(self, j: int) -> Option<Seq<u8>> {
        match self.peer_hashes@[j] {
            Some(h) => Some(h@),
            None => None,
        }
    }

    /// The polynomial evaluation received point-to-point from party `j`.
    pub closed spec fn share_at(self, j: int) -> Option<Seq<u8>> {
        match self.peer_shares@[j] {
            Some(s) => Some(s@),
            None => None,
        }
    }

    /// The revealed Feldman commitments of party `j`, if verified.
    pub closed spec fn commitments_at(self, j: int) -> Option<Seq<Seq<u8>>> {
        match self.peer_commitments@[j] {
            Some(c) => Some(c.deep_view()),
            None => None,
        }
    }

    /// Whether party `j`'s verification acknowledgement arrived.
    pub closed spec fn ack_at(self, j: int) -> bool {
        self.peer_acks@[j]
    }

    /// The combined secret share, once complete.
    pub closed spec fn secret_share_view(self) -> Option<Seq<u8>> {
        match self.secret_share {
            Some(s) => Some(s@),
            None => None,
        }
    }

    /// The group public key in the prime-order group, once complete.
    pub closed spec fn group_public_view(self) -> Option<Seq<u8>> {
        match self.group_public {
            Some(p) => Some(p@),
            None => None,
        }
    }

    /// A round-1 hash arrived from every other party.
    pub open spec fn hashes_complete_spec(self) -> bool {
        forall|j: int|
            0 <= j < self.parties() && j != self.index() ==> (#[trigger] self.hash_at(j)) is Some
    }

    /// A round-2 share arrived from every other party.
    pub open spec fn shares_complete_spec(self) -> bool {
        forall|j: int|
            0 <= j < self.parties() && j != self.index() ==> (#[trigger] self.share_at(j)) is Some
    }

    /// Verified round-3 commitments arrived from every other party.
    pub open spec fn commitments_complete_spec(self) -> bool {
        forall|j: int|
            0 <= j < self.parties() && j != self.index() ==> (#[trigger] self.commitments_at(j))
                is Some
    }

    /// A round-4 acknowledgement arrived from every other party.
    pub open spec fn acks_complete_spec(self) -> bool {
        forall|j: int|
            0 <= j < self.parties() && j != self.index() ==> #[trigger] self.ack_at(j)
    }

    /// Structural invariant, strengthened as the stages go: sizes of every
    /// stored encoding, and completeness of each round already left behind.
    pub closed spec fn wf(self) -> bool {
        &&& 1 <= self.t <= self.n
        &&& 2 <= self.n
        &&& self.i < self.n
        &&& 1 <= self.stage <= 5
        &&& self.coeffs@.len() == self.t as int
        &&& forall|k: int| 0 <= k < self.coeffs@.len() ==> scalar_ok((#[trigger] self.coeffs@[k])@)
        &&& self.commitments@.len() == self.t as int
        &&& forall|k: int|
            0 <= k < self.commitments@.len() ==> g1_ok((#[trigger] self.commitments@[k])@)
        &&& self.peer_hashes@.len() == self.n as int
        &&& self.peer_shares@.len() == self.n as int
        &&& self.peer_commitments@.len() == self.n as int
        &&& self.peer_acks@.len() == self.n as int
        &&& forall|j: int|
            0 <= j < self.parties() && (#[trigger] self.hash_at(j)) is Some ==> self.hash_at(
                j,
            )->Some_0.len() == 32
        &&& forall|j: int|
            0 <= j < self.parties() && (#[trigger] self.share_at(j)) is Some ==> self.share_at(
                j,
            )->Some_0.len() == 32
        &&& forall|j: int|
            0 <= j < self.parties() && (#[trigger] self.commitments_at(j)) is Some ==> (
            self.commitments_at(j)->Some_0.len() == self.threshold() && self.share_at(j) is Some
                && scalar_ok(self.share_at(j)->Some_0) && forall|k: int|
                0 <= k < self.commitments_at(j)->Some_0.len() ==> g1_ok(
                    #[trigger] self.commitments_at(j)->Some_0[k],
                ))
        &&& self.stage <= 2 ==> forall|j: int|
            0 <= j < self.parties() ==> (#[trigger] self.commitments_at(j)) is None
        &&& self.stage >= 2 ==> self.hashes_complete_spec()
        &&& self.stage >= 3 ==> self.shares_complete_spec()
        &&& self.stage >= 4 ==> self.commitments_complete_spec()
        &&& self.stage == 5 ==> self.secret_share_view() is Some && self.group_public_view()
            is Some
        &&& self.secret_share_view() is Some ==> scalar_ok(self.secret_share_view()->Some_0)
        &&& self.group_public_view() is Some ==> g1_ok(self.group_public_view()->Some_0)
    }

    /// The participant's configuration and progress are unchanged.
    pub open spec fn same_setup(self, other: DkgParticipant) -> bool {
        &&& other.index() == self.index()
        &&& other.threshold() == self.threshold()
        &&& other.parties() == self.parties()
        &&& other.my_coeffs() == self.my_coeffs()
        &&& other.my_commitments() == self.my_commitments()
    }

    /// States with equal hash buffers expose equal hashes.
    proof fn lemma_frame_hashes(pre: DkgParticipant, post: DkgParticipant)
        requires
            post.peer_hashes == pre.peer_hashes,
        ensures
            forall|j: int|
                0 <= j < pre.peer_hashes@.len() ==> #[trigger] post.hash_at(j) == pre.hash_at(j),
    {
    }

    /// States with equal share buffers expose equal shares.
    proof fn lemma_frame_shares(pre: DkgParticipant, post: DkgParticipant)
        requires
            post.peer_shares == pre.peer_shares,
        ensures
            forall|j: int|
                0 <= j < pre.peer_shares@.len() ==> #[trigger] post.share_at(j) == pre.share_at(j),
    {
    }

    /// States with equal commitment buffers expose equal commitments.
    proof fn lemma_frame_commitments(pre: DkgParticipant, post: DkgParticipant)
        requires
            post.peer_commitments == pre.peer_commitments,
        ensures
            forall|j: int|
                0 <= j < pre.peer_commitments@.len() ==> #[trigger] post.commitments_at(j)
                    == pre.commitments_at(j),
    {
    }

    /// States with equal acknowledgement buffers expose equal flags.
    proof fn lemma_frame_acks(pre: DkgParticipant, post: DkgParticipant)
        requires
            post.peer_acks == pre.peer_acks,
        ensures
            forall|j: int|
                0 <= j < pre.peer_acks@.len() ==> #[trigger] post.ack_at(j) == pre.ack_at(j),
    {
    }

    /// A fresh participant: a random degree-`t-1` polynomial, its Feldman
    /// commitments, and nothing yet received.
    pub fn new(i: u16, t: u16, n: u16) -> (r: Result<DkgParticipant, DkgError>)
        requires
            1 <= t <= n,
            2 <= n,
            i < n,
        ensures
            match r {
                Ok(p) => {
                    &&& p.wf()
                    &&& p.stage() == 1
                    &&& p.index() == i as int
                    &&& p.threshold() == t as int
                    &&& p.parties() == n as int
                    &&& p.my_coeffs().len() == t as int
                    &&& forall|k: int|
                        0 <= k < t as int ==> #[trigger] p.my_commitments()[k] == g1_base_mul_of(
                            p.my_coeffs()[k],
                        )
                },
                Err(_) => false,
            },
    {
        let mut coeffs: Vec<Vec<u8>> = Vec::new();
        let mut commitments: Vec<Vec<u8>> = Vec::new();
        let mut k: usize = 0;
        while k < t as usize
            invariant
                k <= t as usize,
                coeffs@.len() == k,
                commitments@.len() == k,
                forall|j: int| 0 <= j < k ==> scalar_ok((#[trigger] coeffs@[j])@),
                forall|j: int| 0 <= j < k ==> g1_ok((#[trigger] commitments@[j])@),
                forall|j: int|
                    0 <= j < k ==> (#[trigger] commitments@[j])@ == g1_base_mul_of(coeffs@[j]@),
            decreases t as usize - k,
        {
            let c = scalar_random();
            let point = match g1_base_mul(&c) {
                Some(p) => p,
                None => {
                    proof {
                        assert(false);
                    }
                    return Err(DkgError::Arithmetic);
                },
            };
            coeffs.push(c);
            commitments.push(point);
            k += 1;
        }
        proof {
            assert forall|m: int|
                0 <= m < t as int implies #[trigger] commitments.deep_view()[m] == g1_base_mul_of(
                coeffs.deep_view()[m],
            ) by {
                assert(commitments.deep_view()[m] == commitments@[m]@);
                assert(coeffs.deep_view()[m] == coeffs@[m]@);
            }
        }
        let mut peer_hashes: Vec<Option<Vec<u8>>> = Vec::new();
        let mut peer_shares: Vec<Option<Vec<u8>>> = Vec::new();
        let mut peer_commitments: Vec<Option<Vec<Vec<u8>>>> = Vec::new();
        let mut peer_acks: Vec<bool> = Vec::new();
        let mut j: usize = 0;
        while j < n as usize
            invariant
                j <= n as usize,
                peer_hashes@.len() == j,
                peer_shares@.len() == j,
                peer_commitments@.len() == j,
                peer_acks@.len() == j,
                forall|m: int| 0 <= m < j ==> (#[trigger] peer_hashes@[m]) is None,
                forall|m: int| 0 <= m < j ==> (#[trigger] peer_shares@[m]) is None,
                forall|m: int| 0 <= m < j ==> (#[trigger] peer_commitments@[m]) is None,
                forall|m: int| 0 <= m < j ==> !(#[trigger] peer_acks@[m]),
            decreases n as usize - j,
        {
            peer_hashes.push(None);
            peer_shares.push(None);
            peer_commitments.push(None);
            peer_acks.push(false);
            j += 1;
        }
        Ok(
            DkgParticipant {
                i,
                t,
                n,
                stage: 1,
                coeffs,
                commitments,
                peer_hashes,
                peer_shares,
                peer_commitments,
                peer_acks,
                secret_share: None,
                group_public: None,
            },
        )
    }

    /// The round-1 broadcast: the hash binding this party to its Feldman
    /// commitments.
    pub fn round1_payload(&self) -> (r: Vec<u8>)
        requires
            self.wf(),
        ensures
            r@ == sha256_of(concat_spec(self.my_commitments())),
            r@.len() == 32,
    {
        let joined = concat_chunks(&self.commitments);
        sha2_256(&joined)
    }

    /// Files the round-1 commitment hash of party `from`.
    pub fn receive_round1(&mut self, from: u16, payload: Vec<u8>) -> (r: Result<(), DkgError>)
        requires
            old(self).wf(),
            old(self).stage() == 1,
            (from as int) < old(self).parties(),
            from as int != old(self).index(),
        ensures
            final(self).wf(),
            old(self).same_setup(*final(self)),
            final(self).stage() == 1,
            final(self).secret_share_view() == old(self).secret_share_view(),
            match r {
                Ok(()) => {
                    &&& payload@.len() == 32
                    &&& final(self).hash_at(from as int) == Some(payload@)
                    &&& forall|j: int|
                        0 <= j < old(self).parties() && j != from as int ==> #[trigger] final(self).hash_at(j) == old(self).hash_at(j)
                },
                Err(DkgError::BadLength) => payload@.len() != 32 && *old(self) == *final(self),
                Err(_) => false,
            },
    {
        if payload.len() != 32 {
            return Err(DkgError::BadLength);
        }
        let ghost pv = payload@;
        self.peer_hashes[from as usize] = Some(payload);
        proof {
            assert(self.hash_at(from as int) == Some(pv));
            assert forall|j: int|
                0 <= j < self.parties() && j != from as int implies #[trigger] self.hash_at(j)
                == old(self).hash_at(j) by {
                assert(self.peer_hashes@[j] == old(self).peer_hashes@[j]);
            }
            Self::lemma_frame_shares(*old(self), *self);
            Self::lemma_frame_commitments(*old(self), *self);
            Self::lemma_frame_acks(*old(self), *self);
        }
        Ok(())
    }

    /// Whether a round-1 hash has arrived from every other party.
    pub fn hashes_complete(&self) -> (r: bool)
        requires
            self.wf(),
        ensures
            r == self.hashes_complete_spec(),
    {
        let mut j: u16 = 0;
        while j < self.n
            invariant
                self.wf(),
                j <= self.n,
                forall|m: int|
                    0 <= m < j as int && m != self.index() ==> (#[trigger] self.hash_at(m)) is Some,
            decreases self.n - j,
        {
            if j != self.i {
                let present = match &self.peer_hashes[j as usize] {
                    Some(_) => true,
                    None => false,
                };
                if !present {
                    proof {
                        assert(self.hash_at(j as int) is None);
                    }
                    return false;
                }
            }
            j += 1;
        }
        true
    }

    /// Leaves round 1 and deals the round-2 shares: the polynomial evaluated
    /// at `j + 1` for every other party `j`, in ascending order of `j`.
    pub fn begin_round2(&mut self) -> (r: Result<Vec<(u16, Vec<u8>)>, DkgError>)
        requires
            old(self).wf(),
            old(self).stage() == 1,
            old(self).hashes_complete_spec(),
        ensures
            final(self).wf(),
            old(self).same_setup(*final(self)),
            final(self).secret_share_view() == old(self).secret_share_view(),
            match r {
                Ok(outs) => {
                    &&& final(self).stage() == 2
                    &&& forall|j: int|
                        0 <= j < old(self).parties() ==> #[trigger] final(self).hash_at(j) == old(
                            self,
                        ).hash_at(j)
                    &&& outs@.len() == old(self).parties() - 1
                    &&& forall|k: int|
                        0 <= k < outs@.len() ==> #[trigger] outs@[k].0 as int == sender_at(
                            k,
                            old(self).index(),
                        ) && outs@[k].1@ == poly_eval_spec(
                            old(self).my_coeffs(),
                            index_scalar_spec((sender_at(k, old(self).index()) + 1) as u64),
                        )
                },
                Err(e) => e == DkgError::Arithmetic && *old(self) == *final(self) && exists|
                    j: int,
                |
                    0 <= j < old(self).parties() && j != old(self).index() && !scalar_canonical(
                        #[trigger] index_scalar_spec((j + 1) as u64),
                    ),
            },
    {
        let mut outs: Vec<(u16, Vec<u8>)> = Vec::new();
        let mut j: u16 = 0;
        while j < self.n
            invariant
                self.wf(),
                self.stage() == 1,
                j <= self.n,
                outs@.len() == if j as int <= self.index() {
                    j as int
                } else {
                    j as int - 1
                },
                forall|k: int|
                    0 <= k < outs@.len() ==> #[trigger] outs@[k].0 as int == sender_at(
                        k,
                        self.index(),
                    ) && outs@[k].1@ == poly_eval_spec(
                        self.my_coeffs(),
                        index_scalar_spec((sender_at(k, self.index()) + 1) as u64),
                    ),
            decreases self.n - j,
        {
            if j != self.i {
                let x = index_scalar(j as u64 + 1);
                proof {
                    assert forall|k: int|
                        0 <= k < self.coeffs.deep_view().len() implies scalar_ok(
                        #[trigger] self.coeffs.deep_view()[k],
                    ) by {
                        assert(self.coeffs.deep_view()[k] == self.coeffs@[k]@);
                    }
                }
                let share = match poly_eval(&self.coeffs, &x) {
                    Some(s) => s,
                    None => {
                        proof {
                            assert(!scalar_canonical(index_scalar_spec((j as int + 1) as u64)));
                        }
                        return Err(DkgError::Arithmetic);
                    },
                };
                outs.push((j, share));
            }
            j += 1;
        }
        self.stage = 2;
        proof {
            Self::lemma_frame_hashes(*old(self), *self);
            Self::lemma_frame_shares(*old(self), *self);
            Self::lemma_frame_commitments(*old(self), *self);
            Self::lemma_frame_acks(*old(self), *self);
        }
        Ok(outs)
    }

    /// Files the round-2 share dealt to this party by party `from`.
    pub fn receive_round2(&mut self, from: u16, payload: Vec<u8>) -> (r: Result<(), DkgError>)
        requires
            old(self).wf(),
            old(self).stage() == 2,
            (from as int) < old(self).parties(),
            from as int != old(self).index(),
        ensures
            final(self).wf(),
            old(self).same_setup(*final(self)),
            final(self).stage() == 2,
            final(self).secret_share_view() == old(self).secret_share_view(),
            forall|j: int|
                0 <= j < old(self).parties() ==> #[trigger] final(self).hash_at(j) == old(
                    self,
                ).hash_at(j),
            match r {
                Ok(()) => {
                    &&& payload@.len() == 32
                    &&& final(self).share_at(from as int) == Some(payload@)
                    &&& forall|j: int|
                        0 <= j < old(self).parties() && j != from as int ==> #[trigger] final(self).share_at(j) == old(self).share_at(j)
                },
                Err(DkgError::BadLength) => payload@.len() != 32 && *old(self) == *final(self),
                Err(_) => false,
            },
    {
        if payload.len() != 32 {
            return Err(DkgError::BadLength);
        }
        let ghost pv = payload@;
        self.peer_shares[from as usize] = Some(payload);
        proof {
            assert(self.share_at(from as int) == Some(pv));
            assert forall|j: int|
                0 <= j < self.parties() && j != from as int implies #[trigger] self.share_at(j)
                == old(self).share_at(j) by {
                assert(self.peer_shares@[j] == old(self).peer_shares@[j]);
            }
            Self::lemma_frame_hashes(*old(self), *self);
            Self::lemma_frame_commitments(*old(self), *self);
            Self::lemma_frame_acks(*old(self), *self);
        }
        Ok(())
    }

    /// Whether a round-2 share has arrived from every other party.
    pub fn shares_complete(&self) -> (r: bool)
        requires
            self.wf(),
        ensures
            r == self.shares_complete_spec(),
    {
        let mut j: u16 = 0;
        while j < self.n
            invariant
                self.wf(),
                j <= self.n,
                forall|m: int|
                    0 <= m < j as int && m != self.index() ==> (#[trigger] self.share_at(m))
                        is Some,
            decreases self.n - j,
        {
            if j != self.i {
                let present = match &self.peer_shares[j as usize] {
                    Some(_) => true,
                    None => false,
                };
                if !present {
                    proof {
                        assert(self.share_at(j as int) is None);
                    }
                    return false;
                }
            }
            j += 1;
        }
        true
    }

    /// Leaves round 2 and reveals this party's Feldman commitments as one
    /// concatenated payload.
    pub fn begin_round3(&mut self) -> (r: Vec<u8>)
        requires
            old(self).wf(),
            old(self).stage() == 2,
            old(self).shares_complete_spec(),
        ensures
            final(self).wf(),
            old(self).same_setup(*final(self)),
            final(self).stage() == 3,
            final(self).secret_share_view() == old(self).secret_share_view(),
            forall|j: int|
                0 <= j < old(self).parties() ==> #[trigger] final(self).hash_at(j) == old(
                    self,
                ).hash_at(j),
            forall|j: int|
                0 <= j < old(self).parties() ==> #[trigger] final(self).share_at(j) == old(
                    self,
                ).share_at(j),
            r@ == concat_spec(old(self).my_commitments()),
    {
        self.stage = 3;
        proof {
            Self::lemma_frame_hashes(*old(self), *self);
            Self::lemma_frame_shares(*old(self), *self);
            Self::lemma_frame_commitments(*old(self), *self);
            Self::lemma_frame_acks(*old(self), *self);
        }
        concat_chunks(&self.commitments)
    }

    /// Files and verifies the round-3 reveal of party `from`: the payload
    /// must split into `t` commitments whose hash matches the round-1
    /// commitment, and the share dealt by `from` must lie on the committed
    /// polynomial at this party's point.
    pub fn receive_round3(&mut self, from: u16, payload: Vec<u8>) -> (r: Result<(), DkgError>)
        requires
            old(self).wf(),
            old(self).stage() == 3,
            (from as int) < old(self).parties(),
            from as int != old(self).index(),
        ensures
            final(self).wf(),
            old(self).same_setup(*final(self)),
            final(self).stage() == 3,
            final(self).secret_share_view() == old(self).secret_share_view(),
            forall|j: int|
                0 <= j < old(self).parties() ==> #[trigger] final(self).hash_at(j) == old(
                    self,
                ).hash_at(j),
            forall|j: int|
                0 <= j < old(self).parties() ==> #[trigger] final(self).share_at(j) == old(
                    self,
                ).share_at(j),
            match r {
                Ok(()) => {
                    &&& payload@.len() == 48 * old(self).threshold()
                    &&& final(self).commitments_at(from as int) is Some
                    &&& concat_spec(final(self).commitments_at(from as int)->Some_0) == payload@
                    &&& Some(sha256_of(payload@)) == old(self).hash_at(from as int)
                    &&& g1_base_mul_of(old(self).share_at(from as int)->Some_0)
                        == feldman_eval_spec(
                        final(self).commitments_at(from as int)->Some_0,
                        index_scalar_spec((old(self).index() + 1) as u64),
                    )
                    &&& forall|j: int|
                        0 <= j < old(self).parties() && j != from as int ==> #[trigger] final(self).commitments_at(j) == old(self).commitments_at(j)
                },
                Err(DkgError::BadLength) => *old(self) == *final(self) && payload@.len() != 48
                    * old(self).threshold(),
                Err(DkgError::BadCommitmentOpening) => *old(self) == *final(self) && Some(
                    sha256_of(payload@),
                ) != old(self).hash_at(from as int),
                Err(DkgError::BadShare) => {
                    &&& *old(self) == *final(self)
                    &&& payload@.len() == 48 * old(self).threshold()
                    &&& Some(sha256_of(payload@)) == old(self).hash_at(from as int)
                    &&& g1_base_mul_of(old(self).share_at(from as int)->Some_0)
                        != feldman_eval_spec(
                        chunks_spec(payload@, 48, old(self).threshold()),
                        index_scalar_spec((old(self).index() + 1) as u64),
                    )
                },
                Err(DkgError::Arithmetic) => {
                    &&& *old(self) == *final(self)
                    &&& (!scalar_canonical(old(self).share_at(from as int)->Some_0)
                        || !feldman_inputs_ok(
                        chunks_spec(payload@, 48, old(self).threshold()),
                        index_scalar_spec((old(self).index() + 1) as u64),
                    ))
                },
                Err(_) => false,
            },
    {
        let chunks = match split_chunks(&payload, 48, self.t as usize) {
            Some(c) => c,
            None => {
                return Err(DkgError::BadLength);
            },
        };
        let digest = sha2_256(&payload);
        let committed = match &self.peer_hashes[from as usize] {
            Some(h) => h,
            None => {
                proof {
                    assert(self.hash_at(from as int) is Some);
                }
                return Err(DkgError::BadCommitmentOpening);
            },
        };
        if !crate::encoding::bytes_eq(&digest, committed) {
            return Err(DkgError::BadCommitmentOpening);
        }
        proof {
            assert(chunks.deep_view() =~= chunks_spec(payload@, 48, old(self).threshold()));
        }
        let share = match &self.peer_shares[from as usize] {
            Some(s) => copy_bytes(s),
            None => {
                proof {
                    assert(self.share_at(from as int) is Some);
                    assert(false);
                }
                return Err(DkgError::BadShare);
            },
        };
        let lhs = match g1_base_mul(&share) {
            Some(p) => p,
            None => {
                proof {
                    assert(!scalar_canonical(old(self).share_at(from as int)->Some_0));
                }
                return Err(DkgError::Arithmetic);
            },
        };
        let x = index_scalar(self.i as u64 + 1);
        let rhs = match feldman_eval(&chunks, &x) {
            Some(p) => p,
            None => {
                proof {
                    assert(!feldman_inputs_ok(
                        chunks_spec(payload@, 48, old(self).threshold()),
                        index_scalar_spec((old(self).index() + 1) as u64),
                    ));
                }
                return Err(DkgError::Arithmetic);
            },
        };
        if !crate::encoding::bytes_eq(&lhs, &rhs) {
            return Err(DkgError::BadShare);
        }
        proof {
            lemma_concat_of_chunks(payload@, chunks.deep_view(), 48, old(self).threshold());
        }
        let ghost cv = chunks.deep_view();
        self.peer_commitments[from as usize] = Some(chunks);
        proof {
            assert(self.commitments_at(from as int) == Some(cv));
            assert forall|j: int|
                0 <= j < self.parties() && j != from as int implies #[trigger] self.commitments_at(
                    j,
                ) == old(self).commitments_at(j) by {
                assert(self.peer_commitments@[j] == old(self).peer_commitments@[j]);
            }
            Self::lemma_frame_hashes(*old(self), *self);
            Self::lemma_frame_shares(*old(self), *self);
            Self::lemma_frame_acks(*old(self), *self);
        }
        Ok(())
    }

    /// Whether verified round-3 commitments have arrived from every other
    /// party.
    pub fn commitments_complete(&self) -> (r: bool)
        requires
            self.wf(),
        ensures
            r == self.commitments_complete_spec(),
    {
        let mut j: u16 = 0;
        while j < self.n
            invariant
                self.wf(),
                j <= self.n,
                forall|m: int|
                    0 <= m < j as int && m != self.index() ==> (#[trigger] self.commitments_at(m))
                        is Some,
            decreases self.n - j,
        {
            if j != self.i {
                let present = match &self.peer_commitments[j as usize] {
                    Some(_) => true,
                    None => false,
                };
                if !present {
                    proof {
                        assert(self.commitments_at(j as int) is None);
                    }
                    return false;
                }
            }
            j += 1;
        }
        true
    }

    /// Leaves round 3 and broadcasts the verification acknowledgement: every
    /// received share checked out against its revealed commitments.
    pub fn begin_round4(&mut self) -> (r: Vec<u8>)
        requires
            old(self).wf(),
            old(self).stage() == 3,
            old(self).commitments_complete_spec(),
        ensures
            final(self).wf(),
            old(self).same_setup(*final(self)),
            final(self).stage() == 4,
            final(self).secret_share_view() == old(self).secret_share_view(),
            forall|j: int|
                0 <= j < old(self).parties() ==> #[trigger] final(self).share_at(j) == old(
                    self,
                ).share_at(j),
            forall|j: int|
                0 <= j < old(self).parties() ==> #[trigger] final(self).commitments_at(j) == old(
                    self,
                ).commitments_at(j),
            r@ == seq![1u8],
    {
        self.stage = 4;
        let mut out: Vec<u8> = Vec::new();
        out.push(1u8);
        proof {
            assert(out@ =~= seq![1u8]);
            Self::lemma_frame_hashes(*old(self), *self);
            Self::lemma_frame_shares(*old(self), *self);
            Self::lemma_frame_commitments(*old(self), *self);
            Self::lemma_frame_acks(*old(self), *self);
        }
        out
    }

    /// Files the round-4 acknowledgement of party `from`; anything but the
    /// acknowledgement byte is a complaint and fails the protocol.
    pub fn receive_round4(&mut self, from: u16, payload: Vec<u8>) -> (r: Result<(), DkgError>)
        requires
            old(self).wf(),
            old(self).stage() == 4,
            (from as int) < old(self).parties(),
            from as int != old(self).index(),
        ensures
            final(self).wf(),
            old(self).same_setup(*final(self)),
            final(self).stage() == 4,
            final(self).secret_share_view() == old(self).secret_share_view(),
            forall|j: int|
                0 <= j < old(self).parties() ==> #[trigger] final(self).share_at(j) == old(
                    self,
                ).share_at(j),
            forall|j: int|
                0 <= j < old(self).parties() ==> #[trigger] final(self).commitments_at(j) == old(
                    self,
                ).commitments_at(j),
            match r {
                Ok(()) => {
                    &&& payload@ == seq![1u8]
                    &&& final(self).ack_at(from as int)
                    &&& forall|j: int|
                        0 <= j < old(self).parties() && j != from as int ==> #[trigger] final(self).ack_at(j) == old(self).ack_at(j)
                },
                Err(DkgError::BadTranscript) => payload@ != seq![1u8] && *old(self) == *final(self),
                Err(_) => false,
            },
    {
        if payload.len() != 1 {
            proof {
                assert(payload@ != seq![1u8]);
            }
            return Err(DkgError::BadTranscript);
        }
        if payload[0] != 1u8 {
            proof {
                assert(payload@ != seq![1u8]);
            }
            return Err(DkgError::BadTranscript);
        }
        proof {
            assert(payload@ =~= seq![1u8]);
        }
        self.peer_acks[from as usize] = true;
        proof {
            assert(self.ack_at(from as int));
            assert forall|j: int|
                0 <= j < self.parties() && j != from as int implies #[trigger] self.ack_at(j)
                == old(self).ack_at(j) by {
                assert(self.peer_acks@[j] == old(self).peer_acks@[j]);
            }
            Self::lemma_frame_hashes(*old(self), *self);
            Self::lemma_frame_shares(*old(self), *self);
            Self::lemma_frame_commitments(*old(self), *self);
        }
        Ok(())
    }

    /// Whether a round-4 acknowledgement has arrived from every other party.
    pub fn acks_complete(&self) -> (r: bool)
        requires
            self.wf(),
        ensures
            r == self.acks_complete_spec(),
    {
        let mut j: u16 = 0;
        while j < self.n
            invariant
                self.wf(),
                j <= self.n,
                forall|m: int| 0 <= m < j as int && m != self.index() ==> #[trigger] self.ack_at(m),
            decreases self.n - j,
        {
            if j != self.i {
                if !self.peer_acks[j as usize] {
                    proof {
                        assert(!self.ack_at(j as int));
                    }
                    return false;
                }
            }
            j += 1;
        }
        true
    }

    /// The contribution of party `j` to this party's secret share: its dealt
    /// evaluation, or this party's own polynomial at its own point.
    pub open spec fn contribution_at(self, j: int) -> Seq<u8> {
        if j == self.index() {
            poly_eval_spec(self.my_coeffs(), index_scalar_spec((self.index() + 1) as u64))
        } else {
            self.share_at(j)->Some_0
        }
    }

    /// The constant-term commitment of party `j`: `g` raised to its secret
    /// contribution.
    pub open spec fn constant_commitment_at(self, j: int) -> Seq<u8> {
        if j == self.index() {
            self.my_commitments()[0]
        } else {
            self.commitments_at(j)->Some_0[0]
        }
    }

    /// Party `j`'s committed polynomial evaluated in the exponent at this
    /// party's point: what `g` raised to its dealt evaluation must equal.
    pub open spec fn share_commitment_at(self, j: int) -> Seq<u8> {
        if j == self.index() {
            feldman_eval_spec(self.my_commitments(), index_scalar_spec((self.index() + 1) as u64))
        } else {
            feldman_eval_spec(
                self.commitments_at(j)->Some_0,
                index_scalar_spec((self.index() + 1) as u64),
            )
        }
    }

    /// The local combine: the secret share is the field sum of all dealt
    /// evaluations at this party's point, and the group public key is the
    /// group sum of every party's constant-term commitment. The combined
    /// share is checked against the sum of all committed-polynomial
    /// evaluations before the participant reports completion.
    pub fn finalize(&mut self) -> (r: Result<(), DkgError>)
        requires
            old(self).wf(),
            old(self).stage() == 4,
            old(self).acks_complete_spec(),
        ensures
            final(self).wf(),
            old(self).same_setup(*final(self)),
            match r {
                Ok(()) => {
                    &&& final(self).stage() == 5
                    &&& final(self).secret_share_view() == Some(
                        scalar_sum_spec(
                            Seq::new(old(self).parties() as nat, |j: int| old(self).contribution_at(j)),
                        ),
                    )
                    &&& final(self).group_public_view() == Some(
                        g1_sum_spec(
                            Seq::new(
                                old(self).parties() as nat,
                                |j: int| old(self).constant_commitment_at(j),
                            ),
                        ),
                    )
                    &&& g1_base_mul_of(final(self).secret_share_view()->Some_0) == g1_sum_spec(
                        Seq::new(
                            old(self).parties() as nat,
                            |j: int| old(self).share_commitment_at(j),
                        ),
                    )
                },
                Err(DkgError::CombinedMismatch) => *old(self) == *final(self)
                    && g1_base_mul_of(
                    scalar_sum_spec(
                        Seq::new(old(self).parties() as nat, |j: int| old(self).contribution_at(j)),
                    ),
                ) != g1_sum_spec(
                    Seq::new(
                        old(self).parties() as nat,
                        |j: int| old(self).share_commitment_at(j),
                    ),
                ),
                Err(DkgError::Arithmetic) => *old(self) == *final(self) && !scalar_canonical(
                    index_scalar_spec((old(self).index() + 1) as u64),
                ),
                Err(_) => false,
            },
    {
        let ghost contributions = Seq::new(
            self.parties() as nat,
            |j: int| self.contribution_at(j),
        );
        let ghost constants = Seq::new(
            self.parties() as nat,
            |j: int| self.constant_commitment_at(j),
        );
        let ghost commitment_evals = Seq::new(
            self.parties() as nat,
            |j: int| self.share_commitment_at(j),
        );
        let x = index_scalar(self.i as u64 + 1);
        if !scalar_check(&x) {
            return Err(DkgError::Arithmetic);
        }
        proof {
            assert forall|k: int|
                0 <= k < self.coeffs.deep_view().len() implies scalar_ok(
                #[trigger] self.coeffs.deep_view()[k],
            ) by {
                assert(self.coeffs.deep_view()[k] == self.coeffs@[k]@);
            }
        }
        let own_eval = match poly_eval(&self.coeffs, &x) {
            Some(s) => s,
            None => {
                proof {
                    assert(false);
                }
                return Err(DkgError::Arithmetic);
            },
        };
        let mut acc: Option<Vec<u8>> = None;
        let mut pk_acc: Option<Vec<u8>> = None;
        let mut check_acc: Option<Vec<u8>> = None;
        let mut j: u16 = 0;
        while j < self.n
            invariant
                self.wf(),
                self.stage() == 4,
                self.acks_complete_spec(),
                j <= self.n,
                own_eval@ == self.contribution_at(self.index()),
                contributions == Seq::new(self.parties() as nat, |m: int| self.contribution_at(m)),
                constants == Seq::new(
                    self.parties() as nat,
                    |m: int| self.constant_commitment_at(m),
                ),
                commitment_evals == Seq::new(
                    self.parties() as nat,
                    |m: int| self.share_commitment_at(m),
                ),
                x@ == index_scalar_spec((self.index() + 1) as u64),
                j == 0 <==> acc is None,
                j == 0 <==> pk_acc is None,
                j == 0 <==> check_acc is None,
                scalar_ok(own_eval@),
                scalar_ok(x@),
                j >= 1 ==> acc is Some && acc->Some_0@ == scalar_sum_spec(
                    contributions.take(j as int),
                ) && scalar_ok(acc->Some_0@),
                j >= 1 ==> pk_acc is Some && pk_acc->Some_0@ == g1_sum_spec(
                    constants.take(j as int),
                ) && g1_ok(pk_acc->Some_0@),
                j >= 1 ==> check_acc is Some && check_acc->Some_0@ == g1_sum_spec(
                    commitment_evals.take(j as int),
                ) && g1_ok(check_acc->Some_0@),
            decreases self.n - j,
        {
            proof {
                if j != self.i {
                    assert(self.commitments_at(j as int) is Some);
                }
            }
            let contribution: Vec<u8> = if j == self.i {
                copy_bytes(&own_eval)
            } else {
                match &self.peer_shares[j as usize] {
                    Some(s) => copy_bytes(s),
                    None => {
                        proof {
                            assert(self.share_at(j as int) is Some);
                            assert(false);
                        }
                        return Err(DkgError::Arithmetic);
                    },
                }
            };
            proof {
                assert(contribution@ == contributions[j as int]);
                assert(scalar_ok(contribution@));
            }
            let constant: Vec<u8> = if j == self.i {
                copy_bytes(&self.commitments[0])
            } else {
                match &self.peer_commitments[j as usize] {
                    Some(cs) => {
                        proof {
                            assert(self.commitments_at(j as int)->Some_0[0] == cs@[0]@);
                        }
                        copy_bytes(&cs[0])
                    },
                    None => {
                        proof {
                            assert(false);
                        }
                        return Err(DkgError::Arithmetic);
                    },
                }
            };
            proof {
                assert(constant@ == constants[j as int]);
                assert(g1_ok(constant@));
            }
            acc = match acc {
                None => Some(contribution),
                Some(prev) => {
                    match scalar_add(&prev, &contribution) {
                        Some(s) => Some(s),
                        None => {
                            proof {
                                assert(false);
                            }
                            return Err(DkgError::Arithmetic);
                        },
                    }
                },
            };
            pk_acc = match pk_acc {
                None => Some(constant),
                Some(prev) => {
                    match g1_add(&prev, &constant) {
                        Some(s) => Some(s),
                        None => {
                            proof {
                                assert(false);
                            }
                            return Err(DkgError::Arithmetic);
                        },
                    }
                },
            };
            let commitment_eval: Vec<u8> = if j == self.i {
                proof {
                    assert forall|k: int|
                        0 <= k < self.commitments.deep_view().len() implies g1_ok(
                        #[trigger] self.commitments.deep_view()[k],
                    ) by {
                        assert(self.commitments.deep_view()[k] == self.commitments@[k]@);
                    }
                }
                match feldman_eval(&self.commitments, &x) {
                    Some(e) => e,
                    None => {
                        proof {
                            assert(false);
                        }
                        return Err(DkgError::Arithmetic);
                    },
                }
            } else {
                match &self.peer_commitments[j as usize] {
                    Some(cs) => {
                        proof {
                            assert(cs.deep_view() == self.commitments_at(j as int)->Some_0);
                        }
                        match feldman_eval(cs, &x) {
                            Some(e) => e,
                            None => {
                                proof {
                                    assert(false);
                                }
                                return Err(DkgError::Arithmetic);
                            },
                        }
                    },
                    None => {
                        proof {
                            assert(false);
                        }
                        return Err(DkgError::Arithmetic);
                    },
                }
            };
            proof {
                assert(commitment_eval@ == commitment_evals[j as int]);
                assert(g1_ok(commitment_eval@));
            }
            check_acc = match check_acc {
                None => Some(commitment_eval),
                Some(prev) => {
                    match g1_add(&prev, &commitment_eval) {
                        Some(s) => Some(s),
                        None => {
                            proof {
                                assert(false);
                            }
                            return Err(DkgError::Arithmetic);
                        },
                    }
                },
            };
            proof {
                assert(contributions.take(j as int + 1).drop_last() =~= contributions.take(
                    j as int,
                ));
                assert(contributions.take(j as int + 1).last() == contributions[j as int]);
                assert(constants.take(j as int + 1).drop_last() =~= constants.take(j as int));
                assert(constants.take(j as int + 1).last() == constants[j as int]);
                assert(commitment_evals.take(j as int + 1).drop_last() =~= commitment_evals.take(
                    j as int,
                ));
                assert(commitment_evals.take(j as int + 1).last() == commitment_evals[j as int]);
            }
            j += 1;
        }
        let secret = match acc {
            Some(s) => s,
            None => {
                proof {
                    assert(false);
                }
                return Err(DkgError::Arithmetic);
            },
        };
        let group_public = match pk_acc {
            Some(p) => p,
            None => {
                proof {
                    assert(false);
                }
                return Err(DkgError::Arithmetic);
            },
        };
        let check_sum = match check_acc {
            Some(c) => c,
            None => {
                proof {
                    assert(false);
                }
                return Err(DkgError::Arithmetic);
            },
        };
        proof {
            assert(contributions.take(self.parties()) =~= contributions);
            assert(constants.take(self.parties()) =~= constants);
            assert(commitment_evals.take(self.parties()) =~= commitment_evals);
        }
        let own_commitment = match g1_base_mul(&secret) {
            Some(p) => p,
            None => {
                proof {
                    assert(false);
                }
                return Err(DkgError::Arithmetic);
            },
        };
        if !crate::encoding::bytes_eq(&own_commitment, &check_sum) {
            return Err(DkgError::CombinedMismatch);
        }
        self.secret_share = Some(secret);
        self.group_public = Some(group_public);
        self.stage = 5;
        proof {
            Self::lemma_frame_hashes(*old(self), *self);
            Self::lemma_frame_shares(*old(self), *self);
            Self::lemma_frame_commitments(*old(self), *self);
            Self::lemma_frame_acks(*old(self), *self);
        }
        Ok(())
    }

    /// Feeds a completed round-1 output into the participant: one
    /// commitment hash per other party, positions mapping to senders as the
    /// router hands them out.
    pub fn receive_all_round1(&mut self, msgs: &Vec<(u16, Vec<u8>)>) -> (r: Result<(), DkgError>)
        requires
            old(self).wf(),
            old(self).stage() == 1,
            msgs@.len() == old(self).parties() - 1,
            forall|k: int|
                0 <= k < msgs@.len() ==> (#[trigger] msgs@[k]).0 as int == sender_at(
                    k,
                    old(self).index(),
                ),
        ensures
            final(self).wf(),
            old(self).same_setup(*final(self)),
            final(self).secret_share_view() == old(self).secret_share_view(),
            match r {
                Ok(()) => final(self).stage() == 1 && final(self).hashes_complete_spec(),
                Err(e) => e == DkgError::BadLength && exists|k: int|
                    0 <= k < msgs@.len() && (#[trigger] msgs@[k]).1@.len() != 32,
            },
    {
        let mut k: usize = 0;
        while k < msgs.len()
            invariant
                self.wf(),
                self.stage() == 1,
                old(self).same_setup(*self),
                self.secret_share_view() == old(self).secret_share_view(),
                self.parties() == old(self).parties(),
                self.index() == old(self).index(),
                k <= msgs@.len(),
                msgs@.len() == self.parties() - 1,
                forall|k2: int|
                    0 <= k2 < msgs@.len() ==> (#[trigger] msgs@[k2]).0 as int == sender_at(
                        k2,
                        self.index(),
                    ),
                forall|k2: int|
                    0 <= k2 < k ==> self.hash_at((#[trigger] msgs@[k2]).0 as int) is Some,
            decreases msgs@.len() - k,
        {
            let from = msgs[k].0;
            let payload = copy_bytes(&msgs[k].1);
            proof {
                crate::router::lemma_sender_at_bounds(k as int, self.index(), self.parties());
            }
            match self.receive_round1(from, payload) {
                Ok(()) => {},
                Err(e) => {
                    proof {
                        assert(msgs@[k as int].1@.len() != 32);
                    }
                    return Err(e);
                },
            }
            proof {
                assert forall|k2: int|
                    0 <= k2 < k as int + 1 implies self.hash_at(
                    (#[trigger] msgs@[k2]).0 as int,
                ) is Some by {
                    if msgs@[k2].0 as int == from as int {
                        assert(self.hash_at(from as int) is Some);
                    } else {
                        assert(self.hash_at(msgs@[k2].0 as int) is Some);
                    }
                }
            }
            k += 1;
        }
        proof {
            assert forall|j: int|
                0 <= j < self.parties() && j != self.index() implies (#[trigger] self.hash_at(j))
                is Some by {
                crate::router::lemma_sender_at_covers(self.index(), self.parties(), j);
                let kk = if j < self.index() {
                    j
                } else {
                    j - 1
                };
                assert(msgs@[kk].0 as int == sender_at(kk, self.index()));
                assert(self.hash_at(msgs@[kk].0 as int) is Some);
            }
        }
        Ok(())
    }

    /// Feeds a completed round-2 output into the participant: one dealt
    /// share per other party.
    pub fn receive_all_round2(&mut self, msgs: &Vec<(u16, Vec<u8>)>) -> (r: Result<(), DkgError>)
        requires
            old(self).wf(),
            old(self).stage() == 2,
            msgs@.len() == old(self).parties() - 1,
            forall|k: int|
                0 <= k < msgs@.len() ==> (#[trigger] msgs@[k]).0 as int == sender_at(
                    k,
                    old(self).index(),
                ),
        ensures
            final(self).wf(),
            old(self).same_setup(*final(self)),
            final(self).secret_share_view() == old(self).secret_share_view(),
            match r {
                Ok(()) => final(self).stage() == 2 && final(self).shares_complete_spec(),
                Err(e) => e == DkgError::BadLength && exists|k: int|
                    0 <= k < msgs@.len() && (#[trigger] msgs@[k]).1@.len() != 32,
            },
    {
        let mut k: usize = 0;
        while k < msgs.len()
            invariant
                self.wf(),
                self.stage() == 2,
                old(self).same_setup(*self),
                self.secret_share_view() == old(self).secret_share_view(),
                self.parties() == old(self).parties(),
                self.index() == old(self).index(),
                k <= msgs@.len(),
                msgs@.len() == self.parties() - 1,
                forall|k2: int|
                    0 <= k2 < msgs@.len() ==> (#[trigger] msgs@[k2]).0 as int == sender_at(
                        k2,
                        self.index(),
                    ),
                forall|k2: int|
                    0 <= k2 < k ==> self.share_at((#[trigger] msgs@[k2]).0 as int) is Some,
            decreases msgs@.len() - k,
        {
            let from = msgs[k].0;
            let payload = copy_bytes(&msgs[k].1);
            proof {
                crate::router::lemma_sender_at_bounds(k as int, self.index(), self.parties());
            }
            match self.receive_round2(from, payload) {
                Ok(()) => {},
                Err(e) => {
                    proof {
                        assert(msgs@[k as int].1@.len() != 32);
                    }
                    return Err(e);
                },
            }
            proof {
                assert forall|k2: int|
                    0 <= k2 < k as int + 1 implies self.share_at(
                    (#[trigger] msgs@[k2]).0 as int,
                ) is Some by {
                    if msgs@[k2].0 as int == from as int {
                        assert(self.share_at(from as int) is Some);
                    } else {
                        assert(self.share_at(msgs@[k2].0 as int) is Some);
                    }
                }
            }
            k += 1;
        }
        proof {
            assert forall|j: int|
                0 <= j < self.parties() && j != self.index() implies (#[trigger] self.share_at(j))
                is Some by {
                crate::router::lemma_sender_at_covers(self.index(), self.parties(), j);
                let kk = if j < self.index() {
                    j
                } else {
                    j - 1
                };
                assert(msgs@[kk].0 as int == sender_at(kk, self.index()));
                assert(self.share_at(msgs@[kk].0 as int) is Some);
            }
        }
        Ok(())
    }

    /// Feeds a completed round-3 output into the participant, verifying
    /// every reveal against its committed hash and this party's share.
    pub fn receive_all_round3(&mut self, msgs: &Vec<(u16, Vec<u8>)>) -> (r: Result<(), DkgError>)
        requires
            old(self).wf(),
            old(self).stage() == 3,
            msgs@.len() == old(self).parties() - 1,
            forall|k: int|
                0 <= k < msgs@.len() ==> (#[trigger] msgs@[k]).0 as int == sender_at(
                    k,
                    old(self).index(),
                ),
        ensures
            final(self).wf(),
            old(self).same_setup(*final(self)),
            final(self).secret_share_view() == old(self).secret_share_view(),
            match r {
                Ok(()) => final(self).stage() == 3 && final(self).commitments_complete_spec(),
                Err(DkgError::BadLength) => exists|k: int|
                    0 <= k < msgs@.len() && (#[trigger] msgs@[k]).1@.len() != 48 * old(
                        self,
                    ).threshold(),
                Err(DkgError::BadCommitmentOpening) => exists|k: int|
                    0 <= k < msgs@.len() && Some(sha256_of((#[trigger] msgs@[k]).1@)) != old(
                        self,
                    ).hash_at(sender_at(k, old(self).index())),
                Err(DkgError::BadShare) => exists|k: int|
                    0 <= k < msgs@.len() && g1_base_mul_of(
                        old(self).share_at(sender_at(k, old(self).index()))->Some_0,
                    ) != feldman_eval_spec(
                        chunks_spec((#[trigger] msgs@[k]).1@, 48, old(self).threshold()),
                        index_scalar_spec((old(self).index() + 1) as u64),
                    ),
                Err(DkgError::Arithmetic) => exists|k: int|
                    0 <= k < msgs@.len() && (!scalar_canonical(
                        old(self).share_at(sender_at(k, old(self).index()))->Some_0,
                    ) || !feldman_inputs_ok(
                        chunks_spec((#[trigger] msgs@[k]).1@, 48, old(self).threshold()),
                        index_scalar_spec((old(self).index() + 1) as u64),
                    )),
                Err(_) => false,
            },
    {
        let mut k: usize = 0;
        while k < msgs.len()
            invariant
                self.wf(),
                self.stage() == 3,
                old(self).same_setup(*self),
                self.secret_share_view() == old(self).secret_share_view(),
                self.parties() == old(self).parties(),
                self.index() == old(self).index(),
                k <= msgs@.len(),
                msgs@.len() == self.parties() - 1,
                forall|k2: int|
                    0 <= k2 < msgs@.len() ==> (#[trigger] msgs@[k2]).0 as int == sender_at(
                        k2,
                        self.index(),
                    ),
                forall|k2: int|
                    0 <= k2 < k ==> self.commitments_at((#[trigger] msgs@[k2]).0 as int) is Some,
                forall|j: int|
                    0 <= j < self.parties() ==> #[trigger] self.hash_at(j) == old(self).hash_at(j),
                forall|j: int|
                    0 <= j < self.parties() ==> #[trigger] self.share_at(j) == old(self).share_at(
                        j,
                    ),
            decreases msgs@.len() - k,
        {
            let from = msgs[k].0;
            let payload = copy_bytes(&msgs[k].1);
            proof {
                crate::router::lemma_sender_at_bounds(k as int, self.index(), self.parties());
            }
            match self.receive_round3(from, payload) {
                Ok(()) => {},
                Err(e) => {
                    proof {
                        assert(msgs@[k as int].0 as int == sender_at(k as int, old(self).index()));
                        assert(payload@ == msgs@[k as int].1@);
                    }
                    return Err(e);
                },
            }
            proof {
                assert forall|k2: int|
                    0 <= k2 < k as int + 1 implies self.commitments_at(
                    (#[trigger] msgs@[k2]).0 as int,
                ) is Some by {
                    if msgs@[k2].0 as int == from as int {
                        assert(self.commitments_at(from as int) is Some);
                    } else {
                        assert(self.commitments_at(msgs@[k2].0 as int) is Some);
                    }
                }
            }
            k += 1;
        }
        proof {
            assert forall|j: int|
                0 <= j < self.parties() && j != self.index() implies (
            #[trigger] self.commitments_at(j)) is Some by {
                crate::router::lemma_sender_at_covers(self.index(), self.parties(), j);
                let kk = if j < self.index() {
                    j
                } else {
                    j - 1
                };
                assert(msgs@[kk].0 as int == sender_at(kk, self.index()));
                assert(self.commitments_at(msgs@[kk].0 as int) is Some);
            }
        }
        Ok(())
    }

    /// Feeds a completed round-4 output into the participant: one
    /// acknowledgement per other party.
    pub fn receive_all_round4(&mut self, msgs: &Vec<(u16, Vec<u8>)>) -> (r: Result<(), DkgError>)
        requires
            old(self).wf(),
            old(self).stage() == 4,
            msgs@.len() == old(self).parties() - 1,
            forall|k: int|
                0 <= k < msgs@.len() ==> (#[trigger] msgs@[k]).0 as int == sender_at(
                    k,
                    old(self).index(),
                ),
        ensures
            final(self).wf(),
            old(self).same_setup(*final(self)),
            final(self).secret_share_view() == old(self).secret_share_view(),
            match r {
                Ok(()) => final(self).stage() == 4 && final(self).acks_complete_spec(),
                Err(e) => e == DkgError::BadTranscript && exists|k: int|
                    0 <= k < msgs@.len() && (#[trigger] msgs@[k]).1@ != seq![1u8],
            },
    {
        let mut k: usize = 0;
        while k < msgs.len()
            invariant
                self.wf(),
                self.stage() == 4,
                old(self).same_setup(*self),
                self.secret_share_view() == old(self).secret_share_view(),
                self.parties() == old(self).parties(),
                self.index() == old(self).index(),
                k <= msgs@.len(),
                msgs@.len() == self.parties() - 1,
                forall|k2: int|
                    0 <= k2 < msgs@.len() ==> (#[trigger] msgs@[k2]).0 as int == sender_at(
                        k2,
                        self.index(),
                    ),
                forall|k2: int| 0 <= k2 < k ==> self.ack_at((#[trigger] msgs@[k2]).0 as int),
            decreases msgs@.len() - k,
        {
            let from = msgs[k].0;
            let payload = copy_bytes(&msgs[k].1);
            proof {
                crate::router::lemma_sender_at_bounds(k as int, self.index(), self.parties());
            }
            match self.receive_round4(from, payload) {
                Ok(()) => {},
                Err(e) => {
                    proof {
                        assert(msgs@[k as int].1@ != seq![1u8]);
                    }
                    return Err(e);
                },
            }
            proof {
                assert forall|k2: int|
                    0 <= k2 < k as int + 1 implies self.ack_at((#[trigger] msgs@[k2]).0 as int) by {
                    if msgs@[k2].0 as int == from as int {
                        assert(self.ack_at(from as int));
                    } else {
                        assert(self.ack_at(msgs@[k2].0 as int));
                    }
                }
            }
            k += 1;
        }
        proof {
            assert forall|j: int|
                0 <= j < self.parties() && j != self.index() implies #[trigger] self.ack_at(j) by {
                crate::router::lemma_sender_at_covers(self.index(), self.parties(), j);
                let kk = if j < self.index() {
                    j
                } else {
                    j - 1
                };
                assert(msgs@[kk].0 as int == sender_at(kk, self.index()));
                assert(self.ack_at(msgs@[kk].0 as int));
            }
        }
        Ok(())
    }

    /// A completed participant holds a 32-byte secret share and a 48-byte
    /// group public key.
    pub proof fn lemma_completed_has_outputs(self)
        requires
            self.wf(),
            self.stage() == 5,
        ensures
            self.secret_share_view() is Some,
            self.secret_share_view()->Some_0.len() == 32,
            self.group_public_view() is Some,
            self.group_public_view()->Some_0.len() == 48,
    {
    }

    /// Whether the protocol has run to completion for this party.
    pub fn completed(&self) -> (r: bool)
        requires
            self.wf(),
        ensures
            r == (self.stage() == 5),
    {
        self.stage == 5
    }

    /// The combined secret share, once complete: 32 bytes, big-endian.
    pub fn get_secret_share(&self) -> (r: Option<Vec<u8>>)
        requires
            self.wf(),
        ensures
            match r {
                Some(s) => self.secret_share_view() == Some(s@) && s@.len() == 32,
                None => self.secret_share_view() is None,
            },
    {
        match &self.secret_share {
            Some(s) => Some(copy_bytes(s)),
            None => None,
        }
    }

    /// The group public key in the prime-order group, once complete: a
    /// 48-byte compressed element.
    pub fn group_public_key(&self) -> (r: Option<Vec<u8>>)
        requires
            self.wf(),
        ensures
            match r {
                Some(p) => self.group_public_view() == Some(p@) && p@.len() == 48,
                None => self.group_public_view() is None,
            },
    {
        match &self.group_public {
            Some(p) => Some(copy_bytes(p)),
            None => None,
        }
    }
}

/// Chunks of uniform size concatenate back to the bytes they were split
/// from.
proof fn lemma_concat_of_chunks(data: Seq<u8>, chunks: Seq<Seq<u8>>, size: int, count: int)
    requires
        size >= 1,
        count >= 0,
        data.len() == size * count,
        chunks.len() == count,
        forall|k: int| 0 <= k < count ==> #[trigger] chunks[k] == data.subrange(
            k * size,
            (k + 1) * size,
        ),
    ensures
        concat_spec(chunks) == data,
    decreases count,
{
    if count == 0 {
        assert(concat_spec(chunks) =~= data);
    } else {
        assert(0 <= size * (count - 1) && size * (count - 1) + size == size * count)
            by (nonlinear_arith)
            requires
                size >= 1,
                count >= 1,
        ;
        let head = data.subrange(0, size * (count - 1));
        let prefix = chunks.drop_last();
        assert forall|k: int| 0 <= k < count - 1 implies #[trigger] prefix[k] == head.subrange(
            k * size,
            (k + 1) * size,
        ) by {
            assert(chunks[k] == data.subrange(k * size, (k + 1) * size));
            assert(0 <= k * size && k * size <= (k + 1) * size && (k + 1) * size <= size * (count
                - 1)) by (nonlinear_arith)
                requires
                    size >= 1,
                    0 <= k,
                    k + 1 <= count - 1,
            ;
            assert(head.subrange(k * size, (k + 1) * size) =~= data.subrange(
                k * size,
                (k + 1) * size,
            ));
        }
        lemma_concat_of_chunks(head, prefix, size, count - 1);
        assert(chunks[count - 1] == data.subrange((count - 1) * size, count * size));
        assert((count - 1) * size == size * (count - 1) && count * size == size * count)
            by (nonlinear_arith);
        assert(concat_spec(chunks) == concat_spec(prefix) + chunks.last());
        assert(concat_spec(chunks) =~= data);
    }
}

} // verus!
