//! The key-share store: an append-mostly mapping from the hex-encoded
//! session meta-hash to the persisted key state. The latest entry for a key
//! wins, so overwriting is appending.
use vstd::prelude::*;
use crate::encoding::copy_bytes;
use crate::keygen_state_machine::BlsState;

verus! {

/// The mathematical content of a persisted key state: both byte fields, the
/// keygen call id and the threshold.
pub open spec fn state_view(s: BlsState) -> (Option<Seq<u8>>, Option<Seq<u8>>, u64, u16) {
    (
        match s.secret_key_bytes {
            Some(b) => Some(b@),
            None => None,
        },
        match s.uncompressed_pk {
            Some(b) => Some(b@),
            None => None,
        },
        s.call_id,
        s.t,
    )
}

/// A copy of a key state, byte for byte.
pub fn clone_state(s: &BlsState) -> (r: BlsState)
    ensures
        state_view(r) == state_view(*s),
{
    let secret_key_bytes = match &s.secret_key_bytes {
        Some(b) => Some(copy_bytes(b)),
        None => None,
    };
    let uncompressed_pk = match &s.uncompressed_pk {
        Some(b) => Some(copy_bytes(b)),
        None => None,
    };
    BlsState { secret_key_bytes, uncompressed_pk, call_id: s.call_id, t: s.t }
}

/// What a sequence of store entries says about a key: the last entry under
/// that key, if any.
pub open spec fn lookup_entries(entries: Seq<(Vec<u8>, BlsState)>, key: Seq<u8>) -> Option<
    (Option<Seq<u8>>, Option<Seq<u8>>, u64, u16),
>
    decreases entries.len(),
{
    if entries.len() == 0 {
        None
    } else if entries.last().0@ == key {
        Some(state_view(entries.last().1))
    } else {
        lookup_entries(entries.drop_last(), key)
    }
}

/// The persisted mapping from hex-encoded meta-hash to key state.
pub struct ShareStore {
    entries: Vec<(Vec<u8>, BlsState)>,
}

impl ShareStore {
    /// The entries written so far, oldest first.
    pub closed spec fn entries_view(self) -> Seq<(Vec<u8>, BlsState)> {
        self.entries@
    }

    /// What the store holds under a key.
    pub open spec fn lookup_spec(self, key: Seq<u8>) -> Option<
        (Option<Seq<u8>>, Option<Seq<u8>>, u64, u16),
    > {
        lookup_entries(self.entries_view(), key)
    }

    /// An empty store.
    pub fn new() -> (r: ShareStore)
        ensures
            forall|k: Seq<u8>| r.lookup_spec(k) is None,
    {
        let s = ShareStore { entries: Vec::new() };
        proof {
            assert forall|k: Seq<u8>| s.lookup_spec(k) is None by {
                assert(s.entries_view().len() == 0);
            }
        }
        s
    }

    /// Writes `value` under `key`; every other key is untouched.
    pub fn set(&mut self, key: Vec<u8>, value: BlsState)
        ensures
            final(self).lookup_spec(key@) == Some(state_view(value)),
            forall|k: Seq<u8>|
                k != key@ ==> #[trigger] final(self).lookup_spec(k) == old(self).lookup_spec(k),
    {
        let ghost kv = key@;
        let ghost vv = state_view(value);
        self.entries.push((key, value));
        proof {
            assert(self.entries_view().last().0@ == kv);
            assert(state_view(self.entries_view().last().1) == vv);
            assert forall|k: Seq<u8>|
                k != kv implies #[trigger] self.lookup_spec(k) == old(self).lookup_spec(k) by {
                assert(self.entries_view().drop_last() =~= old(self).entries_view());
            }
        }
    }

    /// Reads the state stored under `key`, byte for byte as written.
    pub fn get(&self, key: &Vec<u8>) -> (r: Option<BlsState>)
        ensures
            match r {
                Some(st) => self.lookup_spec(key@) == Some(state_view(st)),
                None => self.lookup_spec(key@) is None,
            },
    {
        let ghost entries = self.entries_view();
        let mut k: usize = self.entries.len();
        proof {
            assert(entries.take(k as int) =~= entries);
        }
        while k > 0
            invariant
                k <= self.entries@.len(),
                entries == self.entries_view(),
                lookup_entries(entries, key@) == lookup_entries(entries.take(k as int), key@),
            decreases k,
        {
            k = k - 1;
            proof {
                assert(entries.take(k as int + 1).last() == entries[k as int]);
                assert(entries.take(k as int + 1).drop_last() =~= entries.take(k as int));
            }
            if crate::encoding::bytes_eq(&self.entries[k].0, key) {
                let found = clone_state(&self.entries[k].1);
                return Some(found);
            }
        }
        proof {
            assert(entries.take(0).len() == 0);
        }
        None
    }
}

/// Store round-trip: a write is read back byte-identically, and writes
/// under other keys do not disturb it.
pub proof fn lemma_store_round_trip(
    pre: ShareStore,
    post: ShareStore,
    key: Seq<u8>,
    value: BlsState,
    other: Seq<u8>,
)
    requires
        post.lookup_spec(key) == Some(state_view(value)),
        forall|k: Seq<u8>| k != key ==> #[trigger] post.lookup_spec(k) == pre.lookup_spec(k),
        other != key,
    ensures
        post.lookup_spec(key) == Some(state_view(value)),
        post.lookup_spec(other) == pre.lookup_spec(other),
{
}

} // verus!
