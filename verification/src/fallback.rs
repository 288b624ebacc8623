//! Longest-chain selection, and the selector that falls back to it while
//! the overseer is disconnected (at startup, at shutdown, or on a relay
//! chain that has not enabled parachains).

use vstd::prelude::*;

use crate::chain::BlockHash;
use crate::chain::BlockNumber;
use crate::chain::Header;
use crate::chain::HeaderStore;
use crate::chain::lookup;
use crate::selection::Metrics;
use crate::selection::Oracle;
use crate::selection::SelectRelayChain;
use crate::selection::SelectionError;
use crate::selection::spec_finality_target;

verus! {

/// Some stored block names `h` as its parent.
pub open spec fn has_child(s: Seq<(BlockHash, Header)>, h: BlockHash) -> bool {
    exists|i: int| 0 <= i < s.len() && s[i].1.parent_hash == h
}

/// `h` is a leaf of the stored chain: it is stored and no stored block
/// builds on it.
pub open spec fn is_store_leaf(s: Seq<(BlockHash, Header)>, h: BlockHash) -> bool {
    lookup(s, h) is Some && !has_child(s, h)
}

/// A longest-chain selection rule over the header backend alone, used while
/// no overseer is available.
pub struct LongestChain {
    pub backend: HeaderStore,
}

impl LongestChain {
    /// Wraps the given backend.
    pub fn new(backend: HeaderStore) -> (r: LongestChain)
        ensures
            r.backend@ == backend@,
    {
        LongestChain { backend }
    }

    /// Whether some stored block builds on `h`.
    fn any_child(&self, h: BlockHash) -> (r: bool)
        ensures
            r == has_child(self.backend@, h),
    {
        let n = self.backend.entries.len();
        let mut i: usize = 0;
        while i < n
            invariant
                0 <= i <= n,
                n == self.backend@.len(),
                forall|j: int| 0 <= j < i ==> self.backend@[j].1.parent_hash != h,
            decreases n - i,
        {
            if self.backend.entries[i].1.parent_hash == h {
                return true;
            }
            i = i + 1;
        }
        false
    }

    /// The leaves of the stored chain: every stored hash that no stored
    /// block builds on.
    pub fn leaves(&self) -> (r: Vec<BlockHash>)
        ensures
            forall|h: BlockHash|
                r@.contains(h) <==> (lookup(self.backend@, h) is Some && !has_child(
                    self.backend@,
                    h,
                )),
    {
        let n = self.backend.entries.len();
        let mut out: Vec<BlockHash> = Vec::new();
        let mut i: usize = 0;
        while i < n
            invariant
                0 <= i <= n,
                n == self.backend@.len(),
                forall|h: BlockHash|
                    out@.contains(h) <==> ((exists|j: int|
                        0 <= j < i && self.backend@[j].0 == h) && is_store_leaf(self.backend@, h)),
            decreases n - i,
        {
            let h = self.backend.entries[i].0;
            let ghost prev = out@;
            let present = self.backend.get_header(h).is_some();
            if present && !self.any_child(h) && !contains_hash(&out, h) {
                out.push(h);
            }
            proof {
                assert forall|x: BlockHash| out@.contains(x) implies ((exists|j: int|
                    0 <= j < i + 1 && self.backend@[j].0 == x) && is_store_leaf(
                    self.backend@,
                    x,
                )) by {
                    let idx = choose|idx: int| 0 <= idx < out@.len() && out@[idx] == x;
                    if idx < prev.len() {
                        assert(prev[idx] == x);
                        assert(prev.contains(x));
                    } else {
                        assert(x == h);
                        assert(self.backend@[i as int].0 == x);
                    }
                }
                assert forall|x: BlockHash|
                    ((exists|j: int| 0 <= j < i + 1 && self.backend@[j].0 == x) && is_store_leaf(
                        self.backend@,
                        x,
                    )) implies out@.contains(x) by {
                    let j = choose|j: int| 0 <= j < i + 1 && self.backend@[j].0 == x;
                    if j < i || prev.contains(x) {
                        assert(prev.contains(x));
                        let idx = choose|idx: int| 0 <= idx < prev.len() && prev[idx] == x;
                        assert(out@[idx] == x);
                        assert(out@.contains(x));
                    } else {
                        assert(x == h);
                        assert(out@.last() == h);
                        assert(out@.contains(x));
                    }
                }
            }
            i = i + 1;
        }
        proof {
            assert forall|h: BlockHash|
                out@.contains(h) <==> (lookup(self.backend@, h) is Some && !has_child(
                    self.backend@,
                    h,
                )) by {
                crate::chain::lemma_lookup_key(self.backend@, h);
            }
        }
        out
    }

    /// The header with the greatest number: the head of the longest stored
    /// chain.  An empty backend is a lookup error.
    pub fn best_chain(&self) -> (r: Result<Header, SelectionError>)
        ensures
            match r {
                Ok(h) => {
                    &&& exists|i: int| 0 <= i < self.backend@.len() && self.backend@[i].1 == h
                    &&& forall|i: int|
                        0 <= i < self.backend@.len() ==> self.backend@[i].1.number <= h.number
                },
                Err(e) => self.backend@.len() == 0 && e == SelectionError::ChainLookup,
            },
    {
        let n = self.backend.entries.len();
        if n == 0 {
            return Err(SelectionError::ChainLookup);
        }
        let mut best = self.backend.entries[0].1;
        let mut i: usize = 1;
        while i < n
            invariant
                1 <= i <= n,
                n == self.backend@.len(),
                exists|j: int| 0 <= j < i && self.backend@[j].1 == best,
                forall|j: int| 0 <= j < i ==> self.backend@[j].1.number <= best.number,
            decreases n - i,
        {
            let candidate = self.backend.entries[i].1;
            if candidate.number > best.number {
                best = candidate;
                assert(self.backend@[i as int].1 == best);
            }
            i = i + 1;
        }
        Ok(best)
    }

    /// The vote while no overseer is available: the target itself, the one
    /// vote that is always safe.
    pub fn finality_target(
        &self,
        target_hash: BlockHash,
        maybe_max_number: Option<BlockNumber>,
    ) -> (r: Result<Option<BlockHash>, SelectionError>)
        ensures
            r == Ok::<Option<BlockHash>, SelectionError>(Some(target_hash)),
    {
        Ok(Some(target_hash))
    }
}

/// Whether a hash already occurs in the list.
fn contains_hash(v: &Vec<BlockHash>, h: BlockHash) -> (r: bool)
    ensures
        r == v@.contains(h),
{
    let n = v.len();
    let mut i: usize = 0;
    while i < n
        invariant
            0 <= i <= n,
            n == v@.len(),
            forall|j: int| 0 <= j < i ==> v@[j] != h,
        decreases n - i,
    {
        if v[i] == h {
            assert(v@.contains(h));
            return true;
        }
        i = i + 1;
    }
    false
}

/// A chain-selection implementation which provides safety for relay chains
/// and falls back to longest-chain selection whenever the overseer is
/// disconnected.
pub struct SelectRelayChainWithFallback {
    /// The fallback used while the overseer is disconnected.
    pub fallback: LongestChain,
    /// The parachain-aware selection used while it is connected.
    pub selection: SelectRelayChain,
}

impl SelectRelayChainWithFallback {
    /// Wraps the given chain backend and handle to the overseer.
    pub fn new(backend: HeaderStore, overseer: Oracle, metrics: Metrics) -> (r:
        SelectRelayChainWithFallback)
        ensures
            r.fallback.backend@ == backend@,
            r.selection.backend@ == backend@,
            r.selection.overseer == overseer,
            r.selection.metrics == metrics,
    {
        let fallback_backend = backend.duplicate();
        SelectRelayChainWithFallback {
            fallback: LongestChain::new(fallback_backend),
            selection: SelectRelayChain::new(backend, overseer, metrics),
        }
    }

    /// Connects the selector to an overseer: further calls use the
    /// parachain-aware selection with the handle's replies.
    pub fn connect_to_overseer(&mut self, handle: Oracle)
        ensures
            final(self).selection.overseer == handle,
            final(self).selection.backend@ == old(self).selection.backend@,
            final(self).selection.metrics == old(self).selection.metrics,
            final(self).fallback.backend@ == old(self).fallback.backend@,
    {
        self.selection.overseer = handle;
    }

    /// All leaves: from chain selection when connected, from the backend
    /// when not.
    pub fn leaves(&self) -> (r: Result<Vec<BlockHash>, SelectionError>)
        ensures
            self.selection.overseer.connected ==> (r matches Ok(v) && v@
                == self.selection.overseer.leaves_reply@),
            !self.selection.overseer.connected ==> (r matches Ok(v) && forall|h: BlockHash|
                v@.contains(h) <==> is_store_leaf(self.fallback.backend@, h)),
    {
        if !self.selection.overseer.connected {
            return Ok(self.fallback.leaves());
        }
        self.selection.leaves()
    }

    /// The best chain to build upon: from chain selection when connected,
    /// the longest stored chain when not.
    pub fn best_chain(&self) -> (r: Result<Header, SelectionError>)
        ensures
            !self.selection.overseer.connected ==> match r {
                Ok(h) => {
                    &&& exists|i: int|
                        0 <= i < self.fallback.backend@.len() && self.fallback.backend@[i].1 == h
                    &&& forall|i: int|
                        0 <= i < self.fallback.backend@.len()
                            ==> self.fallback.backend@[i].1.number <= h.number
                },
                Err(e) => self.fallback.backend@.len() == 0 && e == SelectionError::ChainLookup,
            },
            self.selection.overseer.connected ==> match r {
                Ok(h) => self.selection.overseer.leaves_reply@.len() > 0 && lookup(
                    self.selection.backend@,
                    self.selection.overseer.leaves_reply@[0],
                ) == Some(h),
                Err(e) => {
                    ||| (self.selection.overseer.leaves_reply@.len() == 0 && e
                        == SelectionError::EmptyLeaves)
                    ||| (self.selection.overseer.leaves_reply@.len() > 0 && lookup(
                        self.selection.backend@,
                        self.selection.overseer.leaves_reply@[0],
                    ) is None && e == SelectionError::ChainLookup)
                },
            },
    {
        if !self.selection.overseer.connected {
            return self.fallback.best_chain();
        }
        self.selection.best_chain()
    }

    /// The block to vote to finalize next: the parachain-aware pipeline when
    /// connected, the conservative vote for the target when not.
    pub fn finality_target(
        &mut self,
        target_hash: BlockHash,
        maybe_max_number: Option<BlockNumber>,
    ) -> (r: Result<Option<BlockHash>, SelectionError>)
        ensures
            !old(self).selection.overseer.connected ==> (r == Ok::<
                Option<BlockHash>,
                SelectionError,
            >(Some(target_hash)) && *final(self) == *old(self)),
            old(self).selection.overseer.connected ==> r == spec_finality_target(
                old(self).selection.backend@,
                old(self).selection.overseer,
                target_hash,
                maybe_max_number,
            ),
            r matches Ok(v) ==> v is Some,
            final(self).selection.backend@ == old(self).selection.backend@,
            final(self).selection.overseer == old(self).selection.overseer,
            final(self).fallback.backend@ == old(self).fallback.backend@,
    {
        if !self.selection.overseer.connected {
            return self.fallback.finality_target(target_hash, maybe_max_number);
        }
        self.selection.finality_target(target_hash, maybe_max_number)
    }
}

} // verus!
