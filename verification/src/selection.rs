//! The finality target selector.
//!
//! [`SelectRelayChain`] answers the three questions a consensus voter asks:
//! the current leaves, the best chain to build on, and the block to vote to
//! finalize next.  The third runs a four-stage pipeline: the best leaf
//! containing the target, a clamp to a maximum number, the highest approved
//! ancestor, the longest undisputed prefix, and finally a safety net that
//! forces a vote when approval checking lags too far behind the chain head.
//!
//! The chain-selection, approval-voting and dispute-coordinator subsystems
//! answer over one-shot reply channels; [`Oracle`] holds the reply each would
//! send, so the pipeline is verified for every reply the subsystems could
//! give, truthful or not.

use vstd::prelude::*;

use crate::chain::BlockHash;
use crate::chain::BlockNumber;
use crate::chain::CandidateHash;
use crate::chain::Header;
use crate::chain::HeaderStore;
use crate::chain::ancestor_within;
use crate::chain::is_ancestor;
use crate::chain::lemma_is_ancestor_comparable;
use crate::chain::lemma_is_ancestor_trans;
use crate::chain::lookup;
use crate::chain::number_of;
use crate::chain::spec_walk;
use crate::chain::store_wf;

verus! {

/// The maximum number of unfinalized blocks tolerated on account of approval
/// checking or disputes: beyond it the safety net forces a vote.
pub const MAX_FINALITY_LAG: BlockNumber = 50;

/// What can go wrong while selecting a chain.
#[derive(Clone, Copy, PartialEq, Eq, Structural, Debug)]
pub enum SelectionError {
    /// The backend returned no header or number for a hash it was asked for.
    ChainLookup,
    /// A reply channel was cancelled: the overseer is disconnected.
    OverseerDisconnected,
    /// Chain selection returned no leaves at all.
    EmptyLeaves,
}

/// One block of a subchain above a base: its hash and the candidate occupying
/// each availability core at that block.
#[derive(PartialEq, Eq, Debug)]
pub struct BlockDescription {
    pub block_hash: BlockHash,
    pub candidate_hashes: Vec<CandidateHash>,
}

/// The highest fully-approved ancestor reported by approval voting: its
/// hash, its number, and one description per block above the base.
#[derive(PartialEq, Eq, Debug)]
pub struct HighestApprovedAncestorBlock {
    pub hash: BlockHash,
    pub number: BlockNumber,
    pub descriptions: Vec<BlockDescription>,
}

/// The oracle subsystems behind the overseer bus, represented by the reply
/// each would send over its one-shot channel.  When the overseer is
/// disconnected every reply channel is cancelled.
pub struct Oracle {
    /// Whether the overseer is connected: when it is not, every request
    /// fails with a cancelled reply.
    pub connected: bool,
    /// The chain-selection reply to a `Leaves` request.
    pub leaves_reply: Vec<BlockHash>,
    /// The chain-selection reply to a `BestLeafContaining` request.
    pub best_leaf_reply: Option<BlockHash>,
    /// The approval-voting reply to an `ApprovedAncestor` request.
    pub approved_reply: Option<HighestApprovedAncestorBlock>,
    /// The dispute-coordinator reply to a `DetermineUndisputedChain`
    /// request.
    pub undisputed_reply: Option<(BlockNumber, BlockHash)>,
}

impl Oracle {
    /// An oracle with no overseer behind it: every request is cancelled.
    pub fn disconnected() -> (r: Oracle)
        ensures
            !r.connected,
    {
        Oracle {
            connected: false,
            leaves_reply: Vec::new(),
            best_leaf_reply: None,
            approved_reply: None,
            undisputed_reply: None,
        }
    }

    /// Asks chain selection for all leaves.
    pub fn leaves(&self) -> (r: Result<Vec<BlockHash>, SelectionError>)
        ensures
            match r {
                Ok(v) => self.connected && v@ == self.leaves_reply@,
                Err(e) => !self.connected && e == SelectionError::OverseerDisconnected,
            },
    {
        if !self.connected {
            return Err(SelectionError::OverseerDisconnected);
        }
        let n = self.leaves_reply.len();
        let mut v: Vec<BlockHash> = Vec::new();
        let mut i: usize = 0;
        while i < n
            invariant
                0 <= i <= n,
                n == self.leaves_reply@.len(),
                v@ == self.leaves_reply@.take(i as int),
            decreases n - i,
        {
            v.push(self.leaves_reply[i]);
            assert(self.leaves_reply@.take(i as int).push(self.leaves_reply@[i as int])
                =~= self.leaves_reply@.take(i as int + 1));
            i = i + 1;
        }
        assert(self.leaves_reply@.take(n as int) =~= self.leaves_reply@);
        Ok(v)
    }

    /// Asks chain selection for the best leaf containing the given block.
    pub fn best_leaf_containing(&self, target_hash: BlockHash) -> (r: Result<
        Option<BlockHash>,
        SelectionError,
    >)
        ensures
            match r {
                Ok(v) => self.connected && v == self.best_leaf_reply,
                Err(e) => !self.connected && e == SelectionError::OverseerDisconnected,
            },
    {
        if !self.connected {
            return Err(SelectionError::OverseerDisconnected);
        }
        Ok(self.best_leaf_reply)
    }

    /// Asks approval voting for the highest approved ancestor of `head`
    /// above the number `base`.
    pub fn approved_ancestor(&self, head: BlockHash, base: BlockNumber) -> (r: Result<
        &Option<HighestApprovedAncestorBlock>,
        SelectionError,
    >)
        ensures
            match r {
                Ok(v) => self.connected && v == &self.approved_reply,
                Err(e) => !self.connected && e == SelectionError::OverseerDisconnected,
            },
    {
        if !self.connected {
            return Err(SelectionError::OverseerDisconnected);
        }
        Ok(&self.approved_reply)
    }

    /// Asks the dispute coordinator to narrow the subchain described above
    /// `base` to its longest undisputed prefix.
    pub fn undisputed_chain(&self, base: BlockNumber, descriptions: &Vec<BlockDescription>) -> (r:
        Result<Option<(BlockNumber, BlockHash)>, SelectionError>)
        ensures
            match r {
                Ok(v) => self.connected && v == self.undisputed_reply,
                Err(e) => !self.connected && e == SelectionError::OverseerDisconnected,
            },
    {
        if !self.connected {
            return Err(SelectionError::OverseerDisconnected);
        }
        Ok(self.undisputed_reply)
    }
}

/// Saturating subtraction on block numbers.
pub open spec fn sat_sub(a: BlockNumber, b: BlockNumber) -> BlockNumber {
    if a >= b {
        (a - b) as BlockNumber
    } else {
        0
    }
}

/// Stage two of the pipeline: the subchain head after the clamp to
/// `maybe_max`.  `Ok(None)` means the pipeline votes for the target at once
/// (the maximum does not exceed the target's number).
pub open spec fn spec_clamp(
    s: Seq<(BlockHash, Header)>,
    leaf: BlockHash,
    tn: BlockNumber,
    maybe_max: Option<BlockNumber>,
) -> Result<Option<BlockHash>, SelectionError> {
    match maybe_max {
        None => Ok(Some(leaf)),
        Some(max) => if max <= tn {
            Ok(None)
        } else {
            match lookup(s, leaf) {
                None => Err(SelectionError::ChainLookup),
                Some(leaf_hd) => if leaf_hd.number <= max {
                    Ok(Some(leaf))
                } else {
                    match spec_walk(s, leaf, leaf_hd, max) {
                        Some(h) => Ok(Some(h)),
                        None => Err(SelectionError::ChainLookup),
                    }
                },
            }
        },
    }
}

/// The head entering the approval stage, when the pipeline gets there.
pub open spec fn spec_clamped_head(
    s: Seq<(BlockHash, Header)>,
    o: Oracle,
    target_hash: BlockHash,
    maybe_max: Option<BlockNumber>,
) -> Option<BlockHash> {
    if o.connected {
        match o.best_leaf_reply {
            Some(leaf) => match lookup(s, target_hash) {
                Some(thd) => match spec_clamp(s, leaf, thd.number, maybe_max) {
                    Ok(Some(head)) => Some(head),
                    _ => None,
                },
                None => None,
            },
            None => None,
        }
    } else {
        None
    }
}

/// The subchain number after the approved-ancestor stage.
pub open spec fn stage3_number(o: Oracle, tn: BlockNumber) -> BlockNumber {
    match o.approved_reply {
        Some(a) => a.number,
        None => tn,
    }
}

/// The subchain head after the approved-ancestor stage.
pub open spec fn stage3_head(o: Oracle, target_hash: BlockHash) -> BlockHash {
    match o.approved_reply {
        Some(a) => a.hash,
        None => target_hash,
    }
}

/// The subchain number after the undisputed-chain stage.
pub open spec fn stage4_number(o: Oracle, tn: BlockNumber) -> BlockNumber {
    match o.undisputed_reply {
        Some(p) => p.0,
        None => stage3_number(o, tn),
    }
}

/// The subchain head after the undisputed-chain stage.
pub open spec fn stage4_head(o: Oracle, target_hash: BlockHash) -> BlockHash {
    match o.undisputed_reply {
        Some(p) => p.1,
        None => stage3_head(o, target_hash),
    }
}

/// The structural check on the approved-ancestor reply: exactly one block
/// description per block of the subchain above the target.
pub open spec fn descriptions_consistent(o: Oracle, tn: BlockNumber) -> bool {
    match o.approved_reply {
        Some(a) => a.descriptions@.len() == a.number - tn,
        None => true,
    }
}

/// Stages three to five of the pipeline, given the head that survived the
/// clamp: the approved-ancestor constraint, the undisputed-chain constraint
/// and the safety net.
pub open spec fn spec_constrain(
    s: Seq<(BlockHash, Header)>,
    o: Oracle,
    target_hash: BlockHash,
    tn: BlockNumber,
    head: BlockHash,
) -> Result<Option<BlockHash>, SelectionError> {
    match lookup(s, head) {
        None => Err(SelectionError::ChainLookup),
        Some(head_hd) => if !descriptions_consistent(o, tn) {
            Ok(Some(target_hash))
        } else {
            let lag = sat_sub(head_hd.number, stage3_number(o, tn));
            if lag > MAX_FINALITY_LAG {
                let safe = (head_hd.number - MAX_FINALITY_LAG) as BlockNumber;
                if safe <= tn {
                    Ok(Some(target_hash))
                } else {
                    match spec_walk(s, head, head_hd, safe) {
                        Some(f) => Ok(Some(f)),
                        None => Err(SelectionError::ChainLookup),
                    }
                }
            } else {
                Ok(Some(stage4_head(o, target_hash)))
            }
        },
    }
}

/// The whole `finality_target` pipeline as a function of the store, the
/// oracle replies, the target and the clamp.
pub open spec fn spec_finality_target(
    s: Seq<(BlockHash, Header)>,
    o: Oracle,
    target_hash: BlockHash,
    maybe_max: Option<BlockNumber>,
) -> Result<Option<BlockHash>, SelectionError> {
    if !o.connected {
        Err(SelectionError::OverseerDisconnected)
    } else {
        match o.best_leaf_reply {
            None => Ok(Some(target_hash)),
            Some(leaf) => match lookup(s, target_hash) {
                None => Err(SelectionError::ChainLookup),
                Some(thd) => match spec_clamp(s, leaf, thd.number, maybe_max) {
                    Err(e) => Err(e),
                    Ok(None) => Ok(Some(target_hash)),
                    Ok(Some(head)) => spec_constrain(s, o, target_hash, thd.number, head),
                },
            },
        }
    }
}

/// Whether the pipeline reaches the lag accounting: the clamp produced a
/// head, the head's header is stored, and the approved-ancestor reply passed
/// the structural check.
pub open spec fn reaches_lag_stage(
    s: Seq<(BlockHash, Header)>,
    o: Oracle,
    target_hash: BlockHash,
    maybe_max: Option<BlockNumber>,
) -> bool {
    match spec_clamped_head(s, o, target_hash, maybe_max) {
        Some(head) => lookup(s, head) is Some && descriptions_consistent(
            o,
            lookup(s, target_hash).unwrap().number,
        ),
        None => false,
    }
}

/// The number of the head entering the approval stage (the initial leaf of
/// the lag accounting); meaningful when the pipeline reaches that stage.
pub open spec fn spec_initial_leaf_number(
    s: Seq<(BlockHash, Header)>,
    o: Oracle,
    target_hash: BlockHash,
    maybe_max: Option<BlockNumber>,
) -> BlockNumber {
    match spec_clamped_head(s, o, target_hash, maybe_max) {
        Some(head) => match lookup(s, head) {
            Some(h) => h.number,
            None => 0,
        },
        None => 0,
    }
}

/// Truthful oracle replies: what each subsystem guarantees of its answer
/// when it is honest.  The pipeline never assumes any of this — it is the
/// hypothesis under which the ancestry and clamping laws of
/// `finality_target` hold.
pub open spec fn oracle_consistent(
    s: Seq<(BlockHash, Header)>,
    o: Oracle,
    target_hash: BlockHash,
    maybe_max: Option<BlockNumber>,
) -> bool {
    &&& (o.best_leaf_reply matches Some(l) ==> lookup(s, l) is Some && is_ancestor(
        s,
        target_hash,
        l,
    ))
    &&& (o.approved_reply matches Some(a) ==> {
        &&& number_of(s, a.hash) == Some(a.number)
        &&& (spec_clamped_head(s, o, target_hash, maybe_max) matches Some(head) ==> is_ancestor(
            s,
            a.hash,
            head,
        ))
    })
    &&& (o.undisputed_reply matches Some(p) ==> {
        &&& number_of(s, p.1) == Some(p.0)
        &&& (number_of(s, target_hash) matches Some(tn) ==> p.0 >= tn && p.0 <= stage3_number(
            o,
            tn,
        ))
        &&& is_ancestor(s, p.1, stage3_head(o, target_hash))
    })
}

/// Law: the lag gauges are bounded.  The approval lag (initial leaf number
/// minus the post-approval subchain number, saturating) never exceeds the
/// initial leaf's number, and the dispute lag exceeds the approval lag by at
/// most the ground the dispute stage gave up below the approval stage.
/// `finality_target` sets its gauges to exactly these saturating
/// differences.
pub proof fn lemma_finality_lag_bounds(
    initial_leaf_number: BlockNumber,
    approved_number: BlockNumber,
    undisputed_number: BlockNumber,
)
    ensures
        sat_sub(initial_leaf_number, approved_number) <= initial_leaf_number,
        sat_sub(initial_leaf_number, undisputed_number) <= sat_sub(
            initial_leaf_number,
            approved_number,
        ) + sat_sub(approved_number, undisputed_number),
{
}

/// The hash inside a successful vote.
pub open spec fn spec_vote(r: Result<Option<BlockHash>, SelectionError>) -> BlockHash {
    match r {
        Ok(Some(h)) => h,
        _ => 0,
    }
}

/// Under a well-formed store and truthful replies, the head surviving the
/// approval and dispute stages is the target itself or an ancestor of the
/// best leaf that descends from the target, at a number between the
/// target's and the initial leaf's.
proof fn lemma_vote_ancestry(
    s: Seq<(BlockHash, Header)>,
    o: Oracle,
    target_hash: BlockHash,
    maybe_max: Option<BlockNumber>,
    tn: BlockNumber,
    initial_leaf: BlockHash,
    iln: BlockNumber,
)
    requires
        store_wf(s),
        oracle_consistent(s, o, target_hash, maybe_max),
        o.best_leaf_reply is Some,
        is_ancestor(s, initial_leaf, o.best_leaf_reply.unwrap()),
        number_of(s, target_hash) == Some(tn),
        number_of(s, initial_leaf) == Some(iln),
        tn <= iln,
        spec_clamped_head(s, o, target_hash, maybe_max) == Some(initial_leaf),
        descriptions_consistent(o, tn),
    ensures
        ({
            let h = stage4_head(o, target_hash);
            h == target_hash || {
                &&& is_ancestor(s, h, o.best_leaf_reply.unwrap())
                &&& is_ancestor(s, target_hash, h)
                &&& number_of(s, h) matches Some(n) && tn <= n <= iln
            }
        }),
{
    let l = o.best_leaf_reply.unwrap();
    match o.approved_reply {
        Some(a) => {
            lemma_is_ancestor_trans(s, a.hash, initial_leaf, l);
            let k = choose|k: nat| ancestor_within(s, initial_leaf, a.hash, k);
            crate::chain::lemma_ancestor_number(s, initial_leaf, a.hash, k);
            assert(a.number >= tn);
        },
        None => {},
    }
    match o.undisputed_reply {
        Some(p) => {
            let s3h = stage3_head(o, target_hash);
            lemma_is_ancestor_trans(s, p.1, s3h, l);
            lemma_is_ancestor_comparable(s, l, p.1, target_hash);
        },
        None => {
            match o.approved_reply {
                Some(a) => {
                    lemma_is_ancestor_comparable(s, l, a.hash, target_hash);
                },
                None => {},
            }
        },
    }
}

/// The two finality-lag gauges, updated on every `finality_target` call.
pub struct Metrics {
    /// How far behind the chain head the approval-checking protocol is
    /// willing to vote.
    pub approval_checking_finality_lag: BlockNumber,
    /// How far behind the chain head the disputes protocol is willing to
    /// vote.
    pub disputes_finality_lag: BlockNumber,
}

impl Metrics {
    fn note_approval_checking_finality_lag(&mut self, lag: BlockNumber)
        ensures
            final(self).approval_checking_finality_lag == lag,
            final(self).disputes_finality_lag == old(self).disputes_finality_lag,
    {
        self.approval_checking_finality_lag = lag;
    }

    fn note_disputes_finality_lag(&mut self, lag: BlockNumber)
        ensures
            final(self).disputes_finality_lag == lag,
            final(self).approval_checking_finality_lag == old(
                self,
            ).approval_checking_finality_lag,
    {
        self.disputes_finality_lag = lag;
    }
}

impl Default for Metrics {
    /// Both gauges start at zero.
    fn default() -> (r: Metrics)
        ensures
            r.approval_checking_finality_lag == 0,
            r.disputes_finality_lag == 0,
    {
        Metrics { approval_checking_finality_lag: 0, disputes_finality_lag: 0 }
    }
}

/// A chain-selection implementation which provides safety for relay chains,
/// given a connected overseer.
pub struct SelectRelayChain {
    pub backend: HeaderStore,
    pub overseer: Oracle,
    pub metrics: Metrics,
}

impl SelectRelayChain {
    /// Wraps the given chain backend and handle to the overseer.
    pub fn new(backend: HeaderStore, overseer: Oracle, metrics: Metrics) -> (r: SelectRelayChain)
        ensures
            r.backend@ == backend@,
            r.overseer == overseer,
            r.metrics == metrics,
    {
        SelectRelayChain { backend, overseer, metrics }
    }

    /// The header stored under `hash`; an error when the backend has none.
    pub fn block_header(&self, hash: BlockHash) -> (r: Result<Header, SelectionError>)
        ensures
            match r {
                Ok(h) => lookup(self.backend@, hash) == Some(h),
                Err(e) => lookup(self.backend@, hash) is None && e == SelectionError::ChainLookup,
            },
    {
        match self.backend.get_header(hash) {
            Some(h) => Ok(h),
            None => Err(SelectionError::ChainLookup),
        }
    }

    /// The number stored under `hash`; an error when the backend has none.
    pub fn block_number(&self, hash: BlockHash) -> (r: Result<BlockNumber, SelectionError>)
        ensures
            match r {
                Ok(n) => number_of(self.backend@, hash) == Some(n),
                Err(e) => lookup(self.backend@, hash) is None && e == SelectionError::ChainLookup,
            },
    {
        match self.backend.get_header(hash) {
            Some(h) => Ok(h.number),
            None => Err(SelectionError::ChainLookup),
        }
    }

    /// All leaves of the chain: block hashes suitable to build upon, as
    /// chain selection reports them.
    pub fn leaves(&self) -> (r: Result<Vec<BlockHash>, SelectionError>)
        ensures
            match r {
                Ok(v) => self.overseer.connected && v@ == self.overseer.leaves_reply@,
                Err(e) => !self.overseer.connected && e == SelectionError::OverseerDisconnected,
            },
    {
        self.overseer.leaves()
    }

    /// The header of the first leaf: the best chain to build upon.
    ///
    /// An empty leaves reply is an error here: chain selection treats the
    /// finalized block as the best leaf when nothing else is viable.
    pub fn best_chain(&self) -> (r: Result<Header, SelectionError>)
        ensures
            match r {
                Ok(h) => {
                    &&& self.overseer.connected
                    &&& self.overseer.leaves_reply@.len() > 0
                    &&& lookup(self.backend@, self.overseer.leaves_reply@[0]) == Some(h)
                },
                Err(e) => {
                    ||| !self.overseer.connected && e == SelectionError::OverseerDisconnected
                    ||| (self.overseer.connected && self.overseer.leaves_reply@.len() == 0 && e
                        == SelectionError::EmptyLeaves)
                    ||| (self.overseer.connected && self.overseer.leaves_reply@.len() > 0 && lookup(
                        self.backend@,
                        self.overseer.leaves_reply@[0],
                    ) is None && e == SelectionError::ChainLookup)
                },
            },
    {
        let leaves = match self.leaves() {
            Ok(v) => v,
            Err(e) => {
                return Err(e);
            },
        };
        if leaves.len() == 0 {
            return Err(SelectionError::EmptyLeaves);
        }
        let best_leaf = leaves[0];
        self.block_header(best_leaf)
    }

    /// The best descendant of `target_hash` to vote to finalize next.
    ///
    /// The pipeline: the best leaf containing the target, a clamp to
    /// `maybe_max_number`, the highest approved ancestor, the longest
    /// undisputed prefix, and a safety net that forces a vote when the
    /// approval lag exceeds [`MAX_FINALITY_LAG`].  Voting for the target
    /// itself is always safe, so every conservative fallback returns
    /// `Some(target_hash)`; `Ok(None)` is never returned.
    pub fn finality_target(
        &mut self,
        target_hash: BlockHash,
        maybe_max_number: Option<BlockNumber>,
    ) -> (r: Result<Option<BlockHash>, SelectionError>)
        ensures
            r == spec_finality_target(
                old(self).backend@,
                old(self).overseer,
                target_hash,
                maybe_max_number,
            ),
            r matches Ok(v) ==> v is Some,
            final(self).backend@ == old(self).backend@,
            final(self).overseer == old(self).overseer,
            ({
                let s = old(self).backend@;
                let o = old(self).overseer;
                if reaches_lag_stage(s, o, target_hash, maybe_max_number) {
                    let tn = lookup(s, target_hash).unwrap().number;
                    let iln = spec_initial_leaf_number(s, o, target_hash, maybe_max_number);
                    &&& final(self).metrics.approval_checking_finality_lag == sat_sub(
                        iln,
                        stage3_number(o, tn),
                    )
                    &&& final(self).metrics.disputes_finality_lag == sat_sub(
                        iln,
                        stage4_number(o, tn),
                    )
                } else {
                    final(self).metrics == old(self).metrics
                }
            }),
            // law: the vote is the target itself or an ancestor of the best
            // leaf that descends from the target (well-formed store,
            // truthful oracles)
            ({
                let s = old(self).backend@;
                let o = old(self).overseer;
                (store_wf(s) && oracle_consistent(s, o, target_hash, maybe_max_number) && (
                r matches Ok(Some(h)) && h != target_hash)) ==> {
                    let h = spec_vote(r);
                    &&& o.best_leaf_reply is Some
                    &&& is_ancestor(s, h, o.best_leaf_reply.unwrap())
                    &&& is_ancestor(s, target_hash, h)
                }
            }),
            // law: when a maximum number at or above the target is supplied,
            // the vote's number does not exceed it (well-formed store,
            // truthful oracles)
            ({
                let s = old(self).backend@;
                let o = old(self).overseer;
                (store_wf(s) && oracle_consistent(s, o, target_hash, maybe_max_number)
                    && maybe_max_number is Some && number_of(s, target_hash) is Some && number_of(
                    s,
                    target_hash,
                ).unwrap() <= maybe_max_number.unwrap() && r matches Ok(Some(h))) ==> (number_of(
                    s,
                    spec_vote(r),
                ) is Some && number_of(s, spec_vote(r)).unwrap() <= maybe_max_number.unwrap())
            }),
            // law: when the approval lag exceeds the safety net, the vote is
            // forced to sit exactly at the lag bound below the initial leaf
            // (whenever that bound lies above the target)
            ({
                let s = old(self).backend@;
                let o = old(self).overseer;
                let iln = spec_initial_leaf_number(s, o, target_hash, maybe_max_number);
                (reaches_lag_stage(s, o, target_hash, maybe_max_number) && sat_sub(
                    iln,
                    stage3_number(o, lookup(s, target_hash).unwrap().number),
                ) > MAX_FINALITY_LAG && iln - MAX_FINALITY_LAG > lookup(
                    s,
                    target_hash,
                ).unwrap().number && r matches Ok(Some(h))) ==> number_of(s, spec_vote(r)) == Some(
                    (iln - MAX_FINALITY_LAG) as BlockNumber,
                )
            }),
    {
        let ghost s = self.backend@;
        let ghost o = self.overseer;

        // 1. The best leaf containing the target.  No viable leaf containing
        // the block means the target itself is the maximal vote.
        let subchain_head = match self.overseer.best_leaf_containing(target_hash) {
            Err(e) => return Err(e),
            Ok(None) => return Ok(Some(target_hash)),
            Ok(Some(best)) => best,
        };
        let ghost leaf = subchain_head;

        let target_number = match self.block_number(target_hash) {
            Ok(n) => n,
            Err(e) => return Err(e),
        };

        // 2. Constrain the leaf according to `maybe_max_number`.
        let subchain_head = match maybe_max_number {
            None => subchain_head,
            Some(max) => {
                if max <= target_number {
                    return Ok(Some(target_hash));
                }
                let subchain_header = match self.block_header(subchain_head) {
                    Ok(h) => h,
                    Err(e) => return Err(e),
                };
                if subchain_header.number <= max {
                    subchain_head
                } else {
                    match self.backend.walk_backwards_to_target_block(
                        max,
                        subchain_head,
                        &subchain_header,
                    ) {
                        Some(p) => p.0,
                        None => return Err(SelectionError::ChainLookup),
                    }
                }
            },
        };

        let initial_leaf = subchain_head;
        let initial_leaf_number = match self.block_number(initial_leaf) {
            Ok(n) => n,
            Err(e) => return Err(e),
        };
        proof {
            assert(spec_clamp(s, leaf, target_number, maybe_max_number) == Ok::<
                Option<BlockHash>,
                SelectionError,
            >(Some(initial_leaf)));
            assert(spec_clamped_head(s, o, target_hash, maybe_max_number) == Some(initial_leaf));
            assert(spec_initial_leaf_number(s, o, target_hash, maybe_max_number)
                == initial_leaf_number);
            assert(ancestor_within(s, leaf, leaf, 0));
            assert(is_ancestor(s, initial_leaf, leaf));
            assert(maybe_max_number matches Some(max) ==> initial_leaf_number <= max);
            if store_wf(s) && oracle_consistent(s, o, target_hash, maybe_max_number) {
                let k = choose|k: nat| ancestor_within(s, leaf, target_hash, k);
                crate::chain::lemma_ancestor_number(s, leaf, target_hash, k);
                assert(target_number <= initial_leaf_number);
            }
        }

        // 3. Constrain according to the approved ancestor.
        let approved = match self.overseer.approved_ancestor(subchain_head, target_number) {
            Ok(a) => a,
            Err(e) => return Err(e),
        };
        let empty_descriptions: Vec<BlockDescription> = Vec::new();
        let (subchain_hash, subchain_number, descriptions): (
            BlockHash,
            BlockNumber,
            &Vec<BlockDescription>,
        ) = match approved {
            None => (target_hash, target_number, &empty_descriptions),
            Some(a) => (a.hash, a.number, &a.descriptions),
        };

        // Prevent sending flawed data to the dispute coordinator: the reply
        // must describe exactly the blocks above the target.
        let consistent = if subchain_number >= target_number {
            descriptions.len() == (subchain_number - target_number) as usize
        } else {
            false
        };
        if !consistent {
            return Ok(Some(target_hash));
        }
        proof {
            assert(descriptions_consistent(o, target_number));
            assert(reaches_lag_stage(s, o, target_hash, maybe_max_number));
        }

        let lag = if initial_leaf_number >= subchain_number {
            initial_leaf_number - subchain_number
        } else {
            0
        };
        self.metrics.note_approval_checking_finality_lag(lag);

        // 4. Constrain according to disputes.
        let undisputed = match self.overseer.undisputed_chain(target_number, descriptions) {
            Ok(u) => u,
            Err(e) => return Err(e),
        };
        let (subchain_number, subchain_head) = match undisputed {
            Some(p) => p,
            None => (subchain_number, subchain_hash),
        };

        let lag_disputes = if initial_leaf_number >= subchain_number {
            initial_leaf_number - subchain_number
        } else {
            0
        };
        self.metrics.note_disputes_finality_lag(lag_disputes);

        // 5. The safety net: constrain the vote so the network keeps
        // finalizing even when the approval oracle stalls.
        if lag > MAX_FINALITY_LAG {
            let safe_target = initial_leaf_number - MAX_FINALITY_LAG;
            if safe_target <= target_number {
                // The minimal vote is the target itself.
                Ok(Some(target_hash))
            } else {
                let initial_leaf_header = match self.block_header(initial_leaf) {
                    Ok(h) => h,
                    Err(e) => return Err(e),
                };
                match self.backend.walk_backwards_to_target_block(
                    safe_target,
                    initial_leaf,
                    &initial_leaf_header,
                ) {
                    Some(p) => {
                        proof {
                            if store_wf(s) && oracle_consistent(
                                s,
                                o,
                                target_hash,
                                maybe_max_number,
                            ) {
                                assert(is_ancestor(s, p.0, initial_leaf));
                                lemma_is_ancestor_trans(s, p.0, initial_leaf, leaf);
                                lemma_is_ancestor_comparable(s, leaf, p.0, target_hash);
                            }
                        }
                        Ok(Some(p.0))
                    },
                    None => Err(SelectionError::ChainLookup),
                }
            }
        } else {
            proof {
                if store_wf(s) && oracle_consistent(s, o, target_hash, maybe_max_number) {
                    lemma_vote_ancestry(
                        s,
                        o,
                        target_hash,
                        maybe_max_number,
                        target_number,
                        initial_leaf,
                        initial_leaf_number,
                    );
                    assert(subchain_head == stage4_head(o, target_hash));
                }
            }
            Ok(Some(subchain_head))
        }
    }
}

} // verus!
