//! The parachains inherent processor.
//!
//! One mandatory transaction per relay-chain block absorbs one round of
//! parachain activity: it validates the parent header, applies disputes,
//! processes availability bitfields, sweeps timed-out cores, reschedules the
//! freed cores, limits and processes backed candidates, and pumps upward
//! messages — in exactly that order, committing all of it or none of it.
//!
//! The scheduler, inclusion, dispute and upward-message modules are
//! collaborators specified by the replies they give and the calls they
//! receive; [`RuntimeModules`] holds the reply each would give and records
//! each call made to them, so the pipeline is verified for every reply the
//! collaborators could give.

use vstd::multiset::Multiset;
use vstd::prelude::*;

use crate::chain::BlockHash;
use crate::chain::BlockNumber;
use crate::chain::CandidateHash;
use crate::chain::Header;
use crate::chain::spec_header_hash;

verus! {

broadcast use
    vstd::seq_lib::group_to_multiset_ensures,
    vstd::multiset::group_multiset_axioms,
;

/// The weight of a dispatched call: an upper bound on its execution cost.
pub type Weight = u64;

/// The index of a session of the relay chain.
pub type SessionIndex = u32;

/// The index of an availability core: a scheduling slot that can host one
/// parachain at a time.
pub type CoreIndex = u32;

/// The weight an inherent claims up front, before its true cost is known.
pub const INCLUSION_INHERENT_CLAIMED_WEIGHT: Weight = 1_000_000_000;

/// The weight of an inherent that processes no backed candidates.
pub const MINIMAL_INCLUSION_INHERENT_WEIGHT: Weight = INCLUSION_INHERENT_CLAIMED_WEIGHT / 4;

/// The weight of processing one backed candidate.
pub const BACKED_CANDIDATE_WEIGHT: Weight = 100_000;

/// The 8-byte tag of the parachains inherent in the inherent-data provider
/// registry: the bytes of `parachn0`.
pub const PARACHAINS_INHERENT_IDENTIFIER: [u8; 8] = [112, 97, 114, 97, 99, 104, 110, 48];

/// Why an availability core became free; the scheduler uses the reason to
/// decide its re-queuing policy.
#[derive(Clone, Copy, PartialEq, Eq, Structural, Debug)]
pub enum FreedReason {
    /// The candidate occupying the core concluded (by availability or by a
    /// dispute conclusion, which frees the core just the same).
    Concluded,
    /// The candidate occupying the core timed out waiting for availability.
    TimedOut,
    /// A dispute concluded against the candidate occupying the core.
    DisputeConcluded,
}

/// A parachain block proposal endorsed by a quorum of assigned validators:
/// the fields the processor reads.
#[derive(Clone, Copy, PartialEq, Eq, Structural, Debug)]
pub struct BackedCandidate {
    /// The hash of the candidate.
    pub candidate_hash: CandidateHash,
    /// Whether the candidate's commitments include a new validation code.
    pub has_code_upgrade: bool,
}

impl Default for BackedCandidate {
    /// The zero candidate: no hash, no code upgrade.
    fn default() -> (r: BackedCandidate)
        ensures
            r.candidate_hash == 0,
            !r.has_code_upgrade,
    {
        BackedCandidate { candidate_hash: 0, has_code_upgrade: false }
    }
}

/// A bundle of dispute statements about one candidate in one session.
#[derive(Clone, Copy, PartialEq, Eq, Structural, Debug)]
pub struct DisputeStatementSet {
    pub session: SessionIndex,
    pub candidate_hash: CandidateHash,
}

/// A per-validator attestation of which candidates' data the validator
/// holds: one bit per availability core.
#[derive(PartialEq, Eq, Debug)]
pub struct AvailabilityBitfield {
    pub bits: Vec<bool>,
}

/// The payload of one parachains inherent.
pub struct ParachainsInherentData {
    /// Availability attestations, one bit per availability core.
    pub bitfields: Vec<AvailabilityBitfield>,
    /// Backed candidates, at most one per scheduled core.
    pub backed_candidates: Vec<BackedCandidate>,
    /// Multi-dispute statement bundles.
    pub disputes: Vec<DisputeStatementSet>,
    /// The header of the block being built upon.
    pub parent_header: Header,
}

/// What the runtime system knows of the block under construction.
pub struct SystemState {
    /// The stored hash of the parent block.
    pub parent_hash: BlockHash,
    /// The number of the block under construction.
    pub block_number: BlockNumber,
    /// The current session index.
    pub session_index: SessionIndex,
    /// The weight already consumed by the block.
    pub block_weight: Weight,
    /// The configured maximum block weight.
    pub max_block_weight: Weight,
    /// The cost of one storage read plus one storage write.
    pub db_read_write_weight: Weight,
}

/// What can make the inherent fail; any failure aborts the whole inherent
/// and leaves no state change behind.
#[derive(Clone, Copy, PartialEq, Eq, Structural, Debug)]
pub enum InherentError {
    /// The call did not come in as an inherent (its origin is not none).
    BadOrigin,
    /// The inclusion inherent was called more than once in one block.
    TooManyInclusionInherents,
    /// The submitted parent header does not hash to the stored parent hash.
    InvalidParentHeader,
    /// A backed candidate is flagged as potentially invalid by disputes.
    CandidateCouldBeInvalid,
}

/// The candidates retained by the code-upgrade cap: in order, keeping each
/// candidate without a code upgrade, and at most `allowance` carrying one.
pub open spec fn spec_retain_upgrades(s: Seq<BackedCandidate>, allowance: nat) -> Seq<
    BackedCandidate,
>
    decreases s.len(),
{
    if s.len() == 0 {
        s
    } else {
        let rest = s.drop_first();
        if s.first().has_code_upgrade {
            if allowance > 0 {
                seq![s.first()] + spec_retain_upgrades(rest, (allowance - 1) as nat)
            } else {
                spec_retain_upgrades(rest, 0)
            }
        } else {
            seq![s.first()] + spec_retain_upgrades(rest, allowance)
        }
    }
}

/// What `limit_backed_candidates` returns: nothing when the block is
/// already over weight, the code-upgrade-capped list otherwise.
pub open spec fn spec_limit_backed_candidates(
    s: Seq<BackedCandidate>,
    block_weight: Weight,
    max_block: Weight,
) -> Seq<BackedCandidate> {
    if block_weight > max_block {
        Seq::empty()
    } else {
        spec_retain_upgrades(s, 1)
    }
}

/// How many candidates of the list carry a code upgrade.
pub open spec fn upgrade_count(s: Seq<BackedCandidate>) -> nat
    decreases s.len(),
{
    if s.len() == 0 {
        0
    } else {
        (if s.first().has_code_upgrade {
            1nat
        } else {
            0nat
        }) + upgrade_count(s.drop_first())
    }
}

/// The candidates of the list that carry no code upgrade, in order.
pub open spec fn non_upgrades(s: Seq<BackedCandidate>) -> Seq<BackedCandidate>
    decreases s.len(),
{
    if s.len() == 0 {
        s
    } else if s.first().has_code_upgrade {
        non_upgrades(s.drop_first())
    } else {
        seq![s.first()] + non_upgrades(s.drop_first())
    }
}

/// `a` is `b` with some elements left out, in order.
pub open spec fn subsequence_of(a: Seq<BackedCandidate>, b: Seq<BackedCandidate>) -> bool
    decreases b.len(),
{
    if a.len() == 0 {
        true
    } else if b.len() == 0 {
        false
    } else if a.first() == b.first() {
        subsequence_of(a.drop_first(), b.drop_first())
    } else {
        subsequence_of(a, b.drop_first())
    }
}

/// A subsequence stays one when its head is dropped.
proof fn lemma_subsequence_drop(a: Seq<BackedCandidate>, b: Seq<BackedCandidate>)
    requires
        subsequence_of(a, b),
        a.len() > 0,
    ensures
        subsequence_of(a.drop_first(), b),
    decreases b.len(), 0nat,
{
    if a.first() == b.first() {
        if a.drop_first().len() > 0 {
            lemma_subsequence_prepend(a.drop_first(), b.drop_first(), b.first());
            assert(seq![b.first()] + b.drop_first() =~= b);
        }
    } else {
        lemma_subsequence_drop(a, b.drop_first());
        lemma_subsequence_prepend(a.drop_first(), b.drop_first(), b.first());
        assert(seq![b.first()] + b.drop_first() =~= b);
    }
}

/// A subsequence stays one when the other list grows at the front.
proof fn lemma_subsequence_prepend(a: Seq<BackedCandidate>, b: Seq<BackedCandidate>, x: BackedCandidate)
    requires
        subsequence_of(a, b),
    ensures
        subsequence_of(a, seq![x] + b),
    decreases b.len(), 1nat,
{
    let c = seq![x] + b;
    assert(c.drop_first() =~= b);
    if a.len() > 0 {
        if a.first() == x {
            lemma_subsequence_drop(a, b);
        }
    }
}

/// The code-upgrade cap keeps a subsequence: relative order is preserved.
proof fn lemma_retain_subsequence(s: Seq<BackedCandidate>, allowance: nat)
    ensures
        subsequence_of(spec_retain_upgrades(s, allowance), s),
    decreases s.len(),
{
    if s.len() > 0 {
        let rest = s.drop_first();
        let f = s.first();
        if f.has_code_upgrade && allowance == 0 {
            lemma_retain_subsequence(rest, 0);
            lemma_subsequence_prepend(spec_retain_upgrades(rest, 0), rest, f);
            assert(seq![f] + rest =~= s);
        } else {
            let inner = if f.has_code_upgrade {
                (allowance - 1) as nat
            } else {
                allowance
            };
            lemma_retain_subsequence(rest, inner);
            let r = spec_retain_upgrades(s, allowance);
            assert(r =~= seq![f] + spec_retain_upgrades(rest, inner));
            assert(r.first() == s.first());
            assert(r.drop_first() =~= spec_retain_upgrades(rest, inner));
            assert(s.drop_first() =~= rest);
        }
    }
}

/// The code-upgrade cap retains at most `allowance` candidates carrying a
/// code upgrade.
proof fn lemma_retain_upgrade_count(s: Seq<BackedCandidate>, allowance: nat)
    ensures
        upgrade_count(spec_retain_upgrades(s, allowance)) <= allowance,
    decreases s.len(),
{
    if s.len() > 0 {
        let rest = s.drop_first();
        let f = s.first();
        if f.has_code_upgrade {
            if allowance > 0 {
                lemma_retain_upgrade_count(rest, (allowance - 1) as nat);
                let r = seq![f] + spec_retain_upgrades(rest, (allowance - 1) as nat);
                assert(r.drop_first() =~= spec_retain_upgrades(rest, (allowance - 1) as nat));
            } else {
                lemma_retain_upgrade_count(rest, 0);
            }
        } else {
            lemma_retain_upgrade_count(rest, allowance);
            let r = seq![f] + spec_retain_upgrades(rest, allowance);
            assert(r.drop_first() =~= spec_retain_upgrades(rest, allowance));
        }
    }
}

/// The code-upgrade cap keeps every candidate without a code upgrade.
proof fn lemma_retain_non_upgrades(s: Seq<BackedCandidate>, allowance: nat)
    ensures
        non_upgrades(spec_retain_upgrades(s, allowance)) == non_upgrades(s),
    decreases s.len(),
{
    if s.len() > 0 {
        let rest = s.drop_first();
        let f = s.first();
        if f.has_code_upgrade && allowance == 0 {
            lemma_retain_non_upgrades(rest, 0);
        } else {
            let inner = if f.has_code_upgrade {
                (allowance - 1) as nat
            } else {
                allowance
            };
            lemma_retain_non_upgrades(rest, inner);
            let r = seq![f] + spec_retain_upgrades(rest, inner);
            assert(r.drop_first() =~= spec_retain_upgrades(rest, inner));
        }
    }
}

/// Law: the truncation policy retains at most one candidate carrying a code
/// upgrade.
pub proof fn lemma_limit_caps_code_upgrades(
    s: Seq<BackedCandidate>,
    block_weight: Weight,
    max_block: Weight,
)
    ensures
        upgrade_count(spec_limit_backed_candidates(s, block_weight, max_block)) <= 1,
{
    if block_weight > max_block {
    } else {
        lemma_retain_upgrade_count(s, 1);
    }
}

/// Law: the truncation policy preserves relative order — its result is the
/// input with some candidates left out.
pub proof fn lemma_limit_preserves_order(
    s: Seq<BackedCandidate>,
    block_weight: Weight,
    max_block: Weight,
)
    ensures
        subsequence_of(spec_limit_backed_candidates(s, block_weight, max_block), s),
{
    if block_weight > max_block {
    } else {
        lemma_retain_subsequence(s, 1);
    }
}

/// Law: within the weight limit, every candidate without a code upgrade is
/// kept.
pub proof fn lemma_limit_keeps_non_upgrades(
    s: Seq<BackedCandidate>,
    block_weight: Weight,
    max_block: Weight,
)
    requires
        block_weight <= max_block,
    ensures
        non_upgrades(spec_limit_backed_candidates(s, block_weight, max_block)) == non_upgrades(s),
{
    lemma_retain_non_upgrades(s, 1);
}

/// Limits the backed candidates processed in one block.
///
/// Candidates beyond the first carrying a code upgrade are dropped.  Then,
/// if the block is already over its weight limit, everything is dropped:
/// all-or-nothing, so a byzantine provisioner gains nothing by stuffing its
/// preferred candidates at the front.
pub fn limit_backed_candidates(
    backed_candidates: Vec<BackedCandidate>,
    system: &SystemState,
) -> (r: Vec<BackedCandidate>)
    ensures
        r@ == spec_limit_backed_candidates(
            backed_candidates@,
            system.block_weight,
            system.max_block_weight,
        ),
        // law: an overweight block takes no candidates at all
        system.block_weight > system.max_block_weight ==> r@ == Seq::<BackedCandidate>::empty(),
{
    let n = backed_candidates.len();
    let mut out: Vec<BackedCandidate> = Vec::new();
    let mut allowance: usize = 1;
    let mut i: usize = 0;
    assert(backed_candidates@.skip(0) =~= backed_candidates@);
    assert(out@ + spec_retain_upgrades(backed_candidates@, 1) =~= spec_retain_upgrades(
        backed_candidates@,
        1,
    ));
    while i < n
        invariant
            0 <= i <= n,
            n == backed_candidates@.len(),
            allowance <= 1,
            spec_retain_upgrades(backed_candidates@, 1) == out@ + spec_retain_upgrades(
                backed_candidates@.skip(i as int),
                allowance as nat,
            ),
        decreases n - i,
    {
        let c = backed_candidates[i];
        let ghost prev = out@;
        let ghost prev_allowance = allowance as nat;
        proof {
            assert(backed_candidates@.skip(i as int).first() == backed_candidates@[i as int]);
            assert(backed_candidates@.skip(i as int).drop_first() =~= backed_candidates@.skip(
                i as int + 1,
            ));
        }
        if c.has_code_upgrade {
            if allowance > 0 {
                allowance = 0;
                out.push(c);
                proof {
                    assert(prev + (seq![c] + spec_retain_upgrades(
                        backed_candidates@.skip(i as int + 1),
                        0,
                    )) =~= out@ + spec_retain_upgrades(backed_candidates@.skip(i as int + 1), 0));
                }
            }
        } else {
            out.push(c);
            proof {
                assert(prev + (seq![c] + spec_retain_upgrades(
                    backed_candidates@.skip(i as int + 1),
                    prev_allowance,
                )) =~= out@ + spec_retain_upgrades(
                    backed_candidates@.skip(i as int + 1),
                    prev_allowance,
                ));
            }
        }
        i = i + 1;
    }
    proof {
        assert(backed_candidates@.skip(n as int) =~= Seq::<BackedCandidate>::empty());
        assert(out@ + Seq::<BackedCandidate>::empty() =~= out@);
    }
    if system.block_weight > system.max_block_weight {
        Vec::new()
    } else {
        out
    }
}

/// One call recorded against a collaborating module, in the order made.
#[derive(Clone, Copy, PartialEq, Eq, Structural, Debug)]
pub enum RuntimeEffect {
    /// A just-included candidate was noted with the dispute module.
    NoteIncluded,
    /// The scheduler's current scheduling was cleared.
    SchedulerClear,
    /// The freed cores were handed to the scheduler for re-assignment.
    Schedule,
    /// The newly occupied cores were reported to the scheduler.
    Occupied,
    /// The upward-message queue was given its time slice.
    UmpProcessed,
}

/// The scheduler, inclusion, dispute and upward-message modules, as the
/// processor sees them: the reply each gives to the calls of one inherent,
/// and a record of every state-changing call made to them.
///
/// The processor is verified for every combination of replies these
/// collaborators could give.
pub struct RuntimeModules {
    /// Dispute module: the subset of the submitted disputes that are fresh.
    pub fresh_disputes: Vec<(SessionIndex, CandidateHash)>,
    /// Dispute module: whether ingesting the disputes froze the chain.
    pub frozen: bool,
    /// Inclusion module: the cores occupied by the disputed candidates.
    pub disputed_cores: Vec<CoreIndex>,
    /// Inclusion module: the `(core, candidate)` pairs whose availability
    /// the bitfields concluded.
    pub freed_concluded: Vec<(CoreIndex, CandidateHash)>,
    /// Scheduler: whether an availability-timeout predicate applies to this
    /// block.
    pub timeout_predicate_active: bool,
    /// Inclusion module: the pending cores matching the timeout predicate.
    pub timed_out_cores: Vec<CoreIndex>,
    /// Dispute module: the candidate hashes flagged as possibly invalid.
    pub possibly_invalid: Vec<CandidateHash>,
    /// Inclusion module: the cores occupied by the processed candidates.
    pub occupied_cores: Vec<CoreIndex>,
    /// Scheduler: the number of availability cores.
    pub n_availability_cores: usize,
    /// Scheduler: the currently scheduled core assignments.
    pub scheduled_assignments: Vec<CoreIndex>,
    /// Dispute module: the disputes worth submitting, for inherent
    /// creation.
    pub filtered_disputes: Vec<DisputeStatementSet>,
    /// Record: the `(session, candidate, block number)` triples noted as
    /// included with the dispute module.
    pub noted_included: Vec<(SessionIndex, CandidateHash, BlockNumber)>,
    /// Record: whether the scheduler's scheduling was cleared.
    pub scheduler_cleared: bool,
    /// Record: the freed cores last handed to the scheduler.
    pub scheduled_freed: Option<Vec<(CoreIndex, FreedReason)>>,
    /// Record: the occupied cores last reported to the scheduler.
    pub occupied_reported: Option<Vec<CoreIndex>>,
    /// Record: whether the upward-message queue got its time slice.
    pub ump_processed: bool,
    /// Record: every state-changing call, in order.
    pub effects: Vec<RuntimeEffect>,
}

/// The scripted replies of the collaborating modules, unaltered.
pub open spec fn replies_unchanged(a: RuntimeModules, b: RuntimeModules) -> bool {
    &&& b.fresh_disputes == a.fresh_disputes
    &&& b.frozen == a.frozen
    &&& b.disputed_cores == a.disputed_cores
    &&& b.freed_concluded == a.freed_concluded
    &&& b.timeout_predicate_active == a.timeout_predicate_active
    &&& b.timed_out_cores == a.timed_out_cores
    &&& b.possibly_invalid == a.possibly_invalid
    &&& b.occupied_cores == a.occupied_cores
    &&& b.n_availability_cores == a.n_availability_cores
    &&& b.scheduled_assignments == a.scheduled_assignments
    &&& b.filtered_disputes == a.filtered_disputes
}

/// The records of calls made to the collaborating modules, unaltered.
pub open spec fn records_unchanged(a: RuntimeModules, b: RuntimeModules) -> bool {
    &&& b.noted_included == a.noted_included
    &&& b.scheduler_cleared == a.scheduler_cleared
    &&& b.scheduled_freed == a.scheduled_freed
    &&& b.occupied_reported == a.occupied_reported
    &&& b.ump_processed == a.ump_processed
    &&& b.effects == a.effects
}

/// A copy of a list of plain values.
fn copy_vec<T: Copy>(v: &Vec<T>) -> (r: Vec<T>)
    ensures
        r@ == v@,
{
    let n = v.len();
    let mut out: Vec<T> = Vec::new();
    let mut i: usize = 0;
    while i < n
        invariant
            0 <= i <= n,
            n == v@.len(),
            out@ == v@.take(i as int),
        decreases n - i,
    {
        out.push(v[i]);
        assert(v@.take(i as int).push(v@[i as int]) =~= v@.take(i as int + 1));
        i = i + 1;
    }
    assert(v@.take(n as int) =~= v@);
    out
}

impl RuntimeModules {
    /// Dispute module: hands the submitted statement sets over; the reply
    /// is the subset that are fresh.
    pub fn provide_multi_dispute_data(&self, disputes: &Vec<DisputeStatementSet>) -> (r: Vec<
        (SessionIndex, CandidateHash),
    >)
        ensures
            r@ == self.fresh_disputes@,
    {
        copy_vec(&self.fresh_disputes)
    }

    /// Dispute module: whether the chain is frozen (a supermajority dispute
    /// concluded against a finalized block).
    pub fn is_frozen(&self) -> (r: bool)
        ensures
            r == self.frozen,
    {
        self.frozen
    }

    /// Inclusion module: the availability cores the given disputed
    /// candidates occupy.
    pub fn collect_disputed(&self, disputed: &Vec<CandidateHash>) -> (r: Vec<CoreIndex>)
        ensures
            r@ == self.disputed_cores@,
    {
        copy_vec(&self.disputed_cores)
    }

    /// Scheduler: how many availability cores there are (the expected bit
    /// count of every bitfield).
    pub fn availability_cores_len(&self) -> (r: usize)
        ensures
            r == self.n_availability_cores,
    {
        self.n_availability_cores
    }

    /// Inclusion module: processes the bitfields; the reply is the
    /// `(core, candidate)` pairs whose availability just concluded.
    pub fn process_bitfields(
        &self,
        expected_bits: usize,
        bitfields: &Vec<AvailabilityBitfield>,
    ) -> (r: Vec<(CoreIndex, CandidateHash)>)
        ensures
            r@ == self.freed_concluded@,
    {
        copy_vec(&self.freed_concluded)
    }

    /// Scheduler: whether an availability-timeout predicate applies to this
    /// block.
    pub fn availability_timeout_predicate(&self) -> (r: bool)
        ensures
            r == self.timeout_predicate_active,
    {
        self.timeout_predicate_active
    }

    /// Inclusion module: the pending cores matching the timeout predicate.
    pub fn collect_pending(&self) -> (r: Vec<CoreIndex>)
        ensures
            r@ == self.timed_out_cores@,
    {
        copy_vec(&self.timed_out_cores)
    }

    /// Dispute module: whether the candidate's hash is flagged as possibly
    /// invalid for the session.
    pub fn could_be_invalid(&self, session: SessionIndex, candidate_hash: CandidateHash) -> (r:
        bool)
        ensures
            r == self.possibly_invalid@.contains(candidate_hash),
    {
        let n = self.possibly_invalid.len();
        let mut i: usize = 0;
        while i < n
            invariant
                0 <= i <= n,
                n == self.possibly_invalid@.len(),
                forall|j: int| 0 <= j < i ==> self.possibly_invalid@[j] != candidate_hash,
            decreases n - i,
        {
            if self.possibly_invalid[i] == candidate_hash {
                assert(self.possibly_invalid@.contains(candidate_hash));
                return true;
            }
            i = i + 1;
        }
        false
    }

    /// Scheduler: the currently scheduled core assignments.
    pub fn scheduled(&self) -> (r: Vec<CoreIndex>)
        ensures
            r@ == self.scheduled_assignments@,
    {
        copy_vec(&self.scheduled_assignments)
    }

    /// Inclusion module: processes the backed candidates against the
    /// scheduled cores and the parent storage root; the reply is the cores
    /// now occupied.
    pub fn process_candidates(
        &self,
        parent_storage_root: BlockHash,
        backed: &Vec<BackedCandidate>,
        scheduled: Vec<CoreIndex>,
    ) -> (r: Vec<CoreIndex>)
        ensures
            r@ == self.occupied_cores@,
    {
        copy_vec(&self.occupied_cores)
    }

    /// Dispute module: retains only the dispute statements worth
    /// submitting.
    pub fn filter_multi_dispute_data(&self, disputes: Vec<DisputeStatementSet>) -> (r: Vec<
        DisputeStatementSet,
    >)
        ensures
            r@ == self.filtered_disputes@,
    {
        copy_vec(&self.filtered_disputes)
    }

    /// Dispute module: notes a just-included candidate, so disputes can be
    /// raised against it.
    pub fn note_included(
        &mut self,
        session: SessionIndex,
        candidate_hash: CandidateHash,
        now: BlockNumber,
    )
        ensures
            replies_unchanged(*old(self), *final(self)),
            final(self).noted_included@ == old(self).noted_included@.push(
                (session, candidate_hash, now),
            ),
            final(self).effects@ == old(self).effects@.push(RuntimeEffect::NoteIncluded),
            final(self).scheduler_cleared == old(self).scheduler_cleared,
            final(self).scheduled_freed == old(self).scheduled_freed,
            final(self).occupied_reported == old(self).occupied_reported,
            final(self).ump_processed == old(self).ump_processed,
    {
        self.noted_included.push((session, candidate_hash, now));
        self.effects.push(RuntimeEffect::NoteIncluded);
    }

    /// Scheduler: clears the current scheduling.
    pub fn scheduler_clear(&mut self)
        ensures
            replies_unchanged(*old(self), *final(self)),
            final(self).scheduler_cleared,
            final(self).effects@ == old(self).effects@.push(RuntimeEffect::SchedulerClear),
            final(self).noted_included == old(self).noted_included,
            final(self).scheduled_freed == old(self).scheduled_freed,
            final(self).occupied_reported == old(self).occupied_reported,
            final(self).ump_processed == old(self).ump_processed,
    {
        self.scheduler_cleared = true;
        self.effects.push(RuntimeEffect::SchedulerClear);
    }

    /// Scheduler: assigns new paras to the freed cores, from the current
    /// block on.
    pub fn schedule(&mut self, freed: Vec<(CoreIndex, FreedReason)>, now: BlockNumber)
        ensures
            replies_unchanged(*old(self), *final(self)),
            final(self).scheduled_freed == Some(freed),
            final(self).effects@ == old(self).effects@.push(RuntimeEffect::Schedule),
            final(self).noted_included == old(self).noted_included,
            final(self).scheduler_cleared == old(self).scheduler_cleared,
            final(self).occupied_reported == old(self).occupied_reported,
            final(self).ump_processed == old(self).ump_processed,
    {
        self.scheduled_freed = Some(freed);
        self.effects.push(RuntimeEffect::Schedule);
    }

    /// Scheduler: notes which scheduled cores a backed candidate now
    /// occupies.
    pub fn occupied(&mut self, cores: Vec<CoreIndex>)
        ensures
            replies_unchanged(*old(self), *final(self)),
            final(self).occupied_reported == Some(cores),
            final(self).effects@ == old(self).effects@.push(RuntimeEffect::Occupied),
            final(self).noted_included == old(self).noted_included,
            final(self).scheduler_cleared == old(self).scheduler_cleared,
            final(self).scheduled_freed == old(self).scheduled_freed,
            final(self).ump_processed == old(self).ump_processed,
    {
        self.occupied_reported = Some(cores);
        self.effects.push(RuntimeEffect::Occupied);
    }

    /// Upward-message module: gives the pending upward messages a time
    /// slice.
    pub fn process_pending_upward_messages(&mut self)
        ensures
            replies_unchanged(*old(self), *final(self)),
            final(self).ump_processed,
            final(self).effects@ == old(self).effects@.push(RuntimeEffect::UmpProcessed),
            final(self).noted_included == old(self).noted_included,
            final(self).scheduler_cleared == old(self).scheduler_cleared,
            final(self).scheduled_freed == old(self).scheduled_freed,
            final(self).occupied_reported == old(self).occupied_reported,
    {
        self.ump_processed = true;
        self.effects.push(RuntimeEffect::UmpProcessed);
    }
}

/// The candidate hashes of the fresh disputes that belong to one session,
/// in order.
pub open spec fn spec_session_disputes(
    s: Seq<(SessionIndex, CandidateHash)>,
    session: SessionIndex,
) -> Seq<CandidateHash>
    decreases s.len(),
{
    if s.len() == 0 {
        Seq::empty()
    } else {
        let prefix = spec_session_disputes(s.drop_last(), session);
        if s.last().0 == session {
            prefix.push(s.last().1)
        } else {
            prefix
        }
    }
}

/// The candidate hashes of the fresh disputes of the given session.
fn session_disputes(
    fresh: &Vec<(SessionIndex, CandidateHash)>,
    session: SessionIndex,
) -> (r: Vec<CandidateHash>)
    ensures
        r@ == spec_session_disputes(fresh@, session),
{
    let n = fresh.len();
    let mut out: Vec<CandidateHash> = Vec::new();
    let mut i: usize = 0;
    while i < n
        invariant
            0 <= i <= n,
            n == fresh@.len(),
            out@ == spec_session_disputes(fresh@.take(i as int), session),
        decreases n - i,
    {
        let p = fresh[i];
        proof {
            assert(fresh@.take(i as int + 1).drop_last() =~= fresh@.take(i as int));
            assert(fresh@.take(i as int + 1).last() == fresh@[i as int]);
        }
        if p.0 == session {
            out.push(p.1);
        }
        i = i + 1;
    }
    assert(fresh@.take(n as int) =~= fresh@);
    out
}

/// The freed list is sorted ascending by core index.
pub open spec fn sorted_by_core(s: Seq<(CoreIndex, FreedReason)>) -> bool {
    forall|i: int, j: int| 0 <= i < j < s.len() ==> s[i].0 <= s[j].0
}

/// The index of an entry with the smallest core index.
fn index_of_min(v: &Vec<(CoreIndex, FreedReason)>) -> (r: usize)
    requires
        v@.len() > 0,
    ensures
        0 <= r < v@.len(),
        forall|j: int| 0 <= j < v@.len() ==> v@[r as int].0 <= v@[j].0,
{
    let n = v.len();
    let mut best: usize = 0;
    let mut i: usize = 1;
    while i < n
        invariant
            0 <= best < i <= n,
            n == v@.len(),
            forall|j: int| 0 <= j < i ==> v@[best as int].0 <= v@[j].0,
        decreases n - i,
    {
        if v[i].0 < v[best].0 {
            best = i;
        }
        i = i + 1;
    }
    best
}

/// Sorts the freed list ascending by core index, keeping exactly the same
/// entries.
fn sort_freed(input: Vec<(CoreIndex, FreedReason)>) -> (r: Vec<(CoreIndex, FreedReason)>)
    ensures
        sorted_by_core(r@),
        r@.to_multiset() == input@.to_multiset(),
{
    let mut work = input;
    let mut out: Vec<(CoreIndex, FreedReason)> = Vec::new();
    while work.len() > 0
        invariant
            out@.to_multiset().add(work@.to_multiset()) == input@.to_multiset(),
            sorted_by_core(out@),
            forall|i: int, j: int|
                0 <= i < out@.len() && 0 <= j < work@.len() ==> out@[i].0 <= work@[j].0,
        decreases work@.len(),
    {
        let ghost prev_out = out@;
        let ghost prev_work = work@;
        let mi = index_of_min(&work);
        let x = work.remove(mi);
        out.push(x);
        proof {
            assert(out@ == prev_out.push(x));
            assert(work@ == prev_work.remove(mi as int));
            assert(prev_work[mi as int] == x);
            assert(prev_work.contains(x));
            assert(prev_work.to_multiset().count(x) > 0);
            assert(prev_out.push(x).to_multiset() =~= prev_out.to_multiset().insert(x));
            assert(prev_work.remove(mi as int).to_multiset() == prev_work.to_multiset().remove(
                x,
            ));
            assert(out@.to_multiset().add(work@.to_multiset()) =~= prev_out.to_multiset().add(
                prev_work.to_multiset(),
            ));
            assert forall|i: int, j: int|
                0 <= i < out@.len() && 0 <= j < work@.len() implies out@[i].0 <= work@[j].0 by {
                if j < mi {
                    assert(work@[j] == prev_work[j]);
                } else {
                    assert(work@[j] == prev_work[j + 1]);
                }
                if i < prev_out.len() {
                    assert(out@[i] == prev_out[i]);
                } else {
                    assert(out@[i] == x);
                }
            }
            assert forall|i: int, j: int|
                0 <= i < j < out@.len() implies out@[i].0 <= out@[j].0 by {
                if j < prev_out.len() {
                    assert(out@[i] == prev_out[i] && out@[j] == prev_out[j]);
                } else {
                    assert(out@[j] == x);
                    assert(prev_work[mi as int] == x);
                }
            }
        }
    }
    proof {
        assert(work@.to_multiset() =~= Multiset::<(CoreIndex, FreedReason)>::empty());
        assert(out@.to_multiset().add(Multiset::<(CoreIndex, FreedReason)>::empty())
            =~= out@.to_multiset());
    }
    out
}

/// The code-upgrade cap never adds candidates.
proof fn lemma_retain_len(s: Seq<BackedCandidate>, allowance: nat)
    ensures
        spec_retain_upgrades(s, allowance).len() <= s.len(),
    decreases s.len(),
{
    if s.len() > 0 {
        let rest = s.drop_first();
        let f = s.first();
        if f.has_code_upgrade && allowance == 0 {
            lemma_retain_len(rest, 0);
        } else {
            let inner = if f.has_code_upgrade {
                (allowance - 1) as nat
            } else {
                allowance
            };
            lemma_retain_len(rest, inner);
        }
    }
}

/// The origin a call was dispatched with.  `Unsigned` is the none origin:
/// neither signed nor root, the way an inherent comes in.
#[derive(Clone, Copy, PartialEq, Eq, Structural, Debug)]
pub enum Origin {
    Root,
    Signed,
    Unsigned,
}

/// A dispatchable call of the module.
pub enum Call {
    /// The parachains inherent with its payload.
    Enter(ParachainsInherentData),
}

/// The first check that fails on the inherent, or `None` when every check
/// passes.  The checks, in order: the origin must be none, the `Included`
/// flag must be unset, the parent header must hash to the stored parent
/// hash, and — unless the chain froze — no surviving backed candidate may
/// be flagged as possibly invalid.
pub open spec fn spec_enter_error(
    sys: SystemState,
    mods: RuntimeModules,
    included: bool,
    origin: Origin,
    parent_header: Header,
    backed: Seq<BackedCandidate>,
) -> Option<InherentError> {
    if origin != Origin::Unsigned {
        Some(InherentError::BadOrigin)
    } else if included {
        Some(InherentError::TooManyInclusionInherents)
    } else if spec_header_hash(parent_header) != sys.parent_hash {
        Some(InherentError::InvalidParentHeader)
    } else if mods.frozen {
        None
    } else if exists|i: int|
        0 <= i < spec_limit_backed_candidates(backed, sys.block_weight, sys.max_block_weight).len()
            && mods.possibly_invalid@.contains(
            spec_limit_backed_candidates(
                backed,
                sys.block_weight,
                sys.max_block_weight,
            )[i].candidate_hash,
        ) {
        Some(InherentError::CandidateCouldBeInvalid)
    } else {
        None
    }
}

/// The freed cores of one inherent, in pipeline order: cores freed by
/// dispute conclusions, by availability conclusions, and by timeouts.
pub open spec fn spec_freed_cores(mods: RuntimeModules, session: SessionIndex) -> Seq<
    (CoreIndex, FreedReason),
> {
    (if spec_session_disputes(mods.fresh_disputes@, session).len() > 0 {
        mods.disputed_cores@.map_values(|c: CoreIndex| (c, FreedReason::Concluded))
    } else {
        Seq::empty()
    }) + mods.freed_concluded@.map_values(|p: (CoreIndex, CandidateHash)| (p.0, FreedReason::Concluded))
        + (if mods.timeout_predicate_active {
        mods.timed_out_cores@.map_values(|c: CoreIndex| (c, FreedReason::TimedOut))
    } else {
        Seq::empty()
    })
}

/// Law: a block admits at most one inclusion inherent — once the
/// `Included` flag is set, the checks fail with
/// `TooManyInclusionInherents`.
pub proof fn lemma_second_enter_rejected(
    sys: SystemState,
    mods: RuntimeModules,
    parent_header: Header,
    backed: Seq<BackedCandidate>,
)
    ensures
        spec_enter_error(sys, mods, true, Origin::Unsigned, parent_header, backed) == Some(
            InherentError::TooManyInclusionInherents,
        ),
{
}

/// The parachains inherent module: the system state, the collaborating
/// modules it drives, and the per-block `Included` flag.
pub struct ParasInherent {
    /// What the runtime system knows of the block under construction.
    pub system: SystemState,
    /// The collaborating modules.
    pub modules: RuntimeModules,
    /// Whether the paras inherent was included within this block.  Unset at
    /// each block start; still unset when the block ends, the block is
    /// rejected.
    pub included: bool,
}

impl ParasInherent {
    /// The weight of block initialization: one storage read and one write,
    /// spent taking the `Included` flag in `on_finalize`.  Block-scoped
    /// storage starts every block with the flag unset.
    pub fn on_initialize(&mut self) -> (r: Weight)
        ensures
            r == old(self).system.db_read_write_weight,
            !final(self).included,
            final(self).system == old(self).system,
            final(self).modules == old(self).modules,
    {
        self.included = false;
        self.system.db_read_write_weight
    }

    /// Ends the block by taking the `Included` flag.
    ///
    /// Returns whether the flag was set.  `false` means bitfields and heads
    /// were not included this block and the block must be rejected; raising
    /// that fatal signal is the caller's part, since the library's verified
    /// functions do not panic.
    pub fn on_finalize(&mut self) -> (r: bool)
        ensures
            r == old(self).included,
            // law: after a successful inherent the block finalizes cleanly
            old(self).included ==> r,
            !final(self).included,
            final(self).system == old(self).system,
            final(self).modules == old(self).modules,
    {
        let was_included = self.included;
        self.included = false;
        was_included
    }

    /// Enters the paras inherent: processes disputes, bitfields and backed
    /// candidates, exactly once per block.
    ///
    /// The pipeline is all-or-nothing: every check runs before the first
    /// state-changing call, so a failed inherent leaves no change behind,
    /// the way a reverted runtime transaction would.
    pub fn enter(&mut self, origin: Origin, data: &ParachainsInherentData) -> (r: Result<
        Weight,
        InherentError,
    >)
        requires
            MINIMAL_INCLUSION_INHERENT_WEIGHT + data.backed_candidates@.len()
                * BACKED_CANDIDATE_WEIGHT <= Weight::MAX,
        ensures
            ({
                let err = spec_enter_error(
                    old(self).system,
                    old(self).modules,
                    old(self).included,
                    origin,
                    data.parent_header,
                    data.backed_candidates@,
                );
                match r {
                    Ok(_) => err is None,
                    Err(e) => err == Some(e),
                }
            }),
            // law: with the flag already set the call fails, with exactly
            // this error
            (origin == Origin::Unsigned && old(self).included) ==> r == Err::<
                Weight,
                InherentError,
            >(InherentError::TooManyInclusionInherents),
            // law: a failed inherent leaves no state change behind
            r is Err ==> *final(self) == *old(self),
            // law: a successful inherent sets the `Included` flag
            r is Ok ==> final(self).included,
            final(self).system == old(self).system,
            replies_unchanged(old(self).modules, final(self).modules),
            // a frozen chain commits the flag and the minimal weight, and
            // touches no module
            (r is Ok && old(self).modules.frozen) ==> (r == Ok::<Weight, InherentError>(
                MINIMAL_INCLUSION_INHERENT_WEIGHT,
            ) && records_unchanged(old(self).modules, final(self).modules)),
            // otherwise a successful inherent reports its weight and makes
            // exactly the contractual calls, in order
            (r is Ok && !old(self).modules.frozen) ==> ({
                let survivors = spec_limit_backed_candidates(
                    data.backed_candidates@,
                    old(self).system.block_weight,
                    old(self).system.max_block_weight,
                );
                let sess = old(self).system.session_index;
                let now = old(self).system.block_number;
                &&& r == Ok::<Weight, InherentError>(
                    (MINIMAL_INCLUSION_INHERENT_WEIGHT + survivors.len()
                        * BACKED_CANDIDATE_WEIGHT) as Weight,
                )
                &&& final(self).modules.noted_included@ == old(self).modules.noted_included@
                    + old(self).modules.freed_concluded@.map_values(
                    |p: (CoreIndex, CandidateHash)| (sess, p.1, now),
                )
                &&& final(self).modules.scheduler_cleared
                &&& final(self).modules.scheduled_freed matches Some(f) && sorted_by_core(f@)
                    && f@.to_multiset() == spec_freed_cores(old(self).modules, sess).to_multiset()
                &&& final(self).modules.occupied_reported matches Some(oc) && oc@ == old(
                    self,
                ).modules.occupied_cores@
                &&& final(self).modules.ump_processed
                &&& final(self).modules.effects@ == old(self).modules.effects@ + Seq::new(
                    old(self).modules.freed_concluded@.len(),
                    |i: int| RuntimeEffect::NoteIncluded,
                ) + seq![
                    RuntimeEffect::SchedulerClear,
                    RuntimeEffect::Schedule,
                    RuntimeEffect::Occupied,
                    RuntimeEffect::UmpProcessed,
                ]
            }),
    {
        let ghost old_modules = self.modules;

        // 1. Preconditions: origin, single entry, parent header.
        if !matches!(origin, Origin::Unsigned) {
            return Err(InherentError::BadOrigin);
        }
        if self.included {
            return Err(InherentError::TooManyInclusionInherents);
        }
        if crate::chain::header_hash(&data.parent_header) != self.system.parent_hash {
            return Err(InherentError::InvalidParentHeader);
        }

        // 2. Dispute ingestion.
        let current_session = self.system.session_index;
        let fresh_disputes = self.modules.provide_multi_dispute_data(&data.disputes);
        if self.modules.is_frozen() {
            // The chain we are on is invalid: proceed no further on
            // parachains.
            self.included = true;
            return Ok(MINIMAL_INCLUSION_INHERENT_WEIGHT);
        }

        // 3. Collect the cores freed by dispute conclusions: a dispute
        // conclusion frees the core just as a normal conclusion would.
        let current_session_disputes = session_disputes(&fresh_disputes, current_session);
        let mut freed: Vec<(CoreIndex, FreedReason)> = Vec::new();
        if current_session_disputes.len() > 0 {
            let disputed_cores = self.modules.collect_disputed(&current_session_disputes);
            let n = disputed_cores.len();
            let mut i: usize = 0;
            while i < n
                invariant
                    0 <= i <= n,
                    n == disputed_cores@.len(),
                    freed@ == disputed_cores@.take(i as int).map_values(
                        |c: CoreIndex| (c, FreedReason::Concluded),
                    ),
                decreases n - i,
            {
                freed.push((disputed_cores[i], FreedReason::Concluded));
                proof {
                    assert(disputed_cores@.take(i as int + 1).map_values(
                        |c: CoreIndex| (c, FreedReason::Concluded),
                    ) =~= disputed_cores@.take(i as int).map_values(
                        |c: CoreIndex| (c, FreedReason::Concluded),
                    ).push((disputed_cores@[i as int], FreedReason::Concluded)));
                }
                i = i + 1;
            }
            proof {
                assert(disputed_cores@.take(n as int) =~= disputed_cores@);
            }
        }

        // 4. Process the availability bitfields.
        let expected_bits = self.modules.availability_cores_len();
        let freed_concluded = self.modules.process_bitfields(expected_bits, &data.bitfields);
        {
            let n = freed_concluded.len();
            let ghost base = freed@;
            let mut i: usize = 0;
            while i < n
                invariant
                    0 <= i <= n,
                    n == freed_concluded@.len(),
                    freed@ == base + freed_concluded@.take(i as int).map_values(
                        |p: (CoreIndex, CandidateHash)| (p.0, FreedReason::Concluded),
                    ),
                decreases n - i,
            {
                freed.push((freed_concluded[i].0, FreedReason::Concluded));
                proof {
                    assert(base + freed_concluded@.take(i as int + 1).map_values(
                        |p: (CoreIndex, CandidateHash)| (p.0, FreedReason::Concluded),
                    ) =~= (base + freed_concluded@.take(i as int).map_values(
                        |p: (CoreIndex, CandidateHash)| (p.0, FreedReason::Concluded),
                    )).push((freed_concluded@[i as int].0, FreedReason::Concluded)));
                }
                i = i + 1;
            }
            proof {
                assert(freed_concluded@.take(n as int) =~= freed_concluded@);
            }
        }

        // 5. Sweep the cores whose availability work timed out.
        if self.modules.availability_timeout_predicate() {
            let timed_out = self.modules.collect_pending();
            let n = timed_out.len();
            let ghost base = freed@;
            let mut i: usize = 0;
            while i < n
                invariant
                    0 <= i <= n,
                    n == timed_out@.len(),
                    freed@ == base + timed_out@.take(i as int).map_values(
                        |c: CoreIndex| (c, FreedReason::TimedOut),
                    ),
                decreases n - i,
            {
                freed.push((timed_out[i], FreedReason::TimedOut));
                proof {
                    assert(base + timed_out@.take(i as int + 1).map_values(
                        |c: CoreIndex| (c, FreedReason::TimedOut),
                    ) =~= (base + timed_out@.take(i as int).map_values(
                        |c: CoreIndex| (c, FreedReason::TimedOut),
                    )).push((timed_out@[i as int], FreedReason::TimedOut)));
                }
                i = i + 1;
            }
            proof {
                assert(timed_out@.take(n as int) =~= timed_out@);
            }
        }
        proof {
            assert(freed@ =~= spec_freed_cores(old_modules, current_session));
        }

        // 6. Sort the freed cores ascending by core index.
        let freed = sort_freed(freed);

        // 7. Limit the backed candidates to what the block can take.
        let backed_candidates = limit_backed_candidates(
            copy_vec(&data.backed_candidates),
            &self.system,
        );

        // 8. Refuse to back any candidate that is disputed.  This is the
        // last check: nothing has been written yet, so a failure leaves no
        // state change behind.
        {
            let n = backed_candidates.len();
            let mut i: usize = 0;
            while i < n
                invariant
                    0 <= i <= n,
                    n == backed_candidates@.len(),
                    backed_candidates@ == spec_limit_backed_candidates(
                        data.backed_candidates@,
                        self.system.block_weight,
                        self.system.max_block_weight,
                    ),
                    forall|j: int|
                        0 <= j < i ==> !self.modules.possibly_invalid@.contains(
                            backed_candidates@[j].candidate_hash,
                        ),
                    *self == *old(self),
                    !self.included,
                    origin == Origin::Unsigned,
                    spec_header_hash(data.parent_header) == self.system.parent_hash,
                    !self.modules.frozen,
                decreases n - i,
            {
                if self.modules.could_be_invalid(
                    current_session,
                    backed_candidates[i].candidate_hash,
                ) {
                    proof {
                        let survivors = spec_limit_backed_candidates(
                            data.backed_candidates@,
                            self.system.block_weight,
                            self.system.max_block_weight,
                        );
                        assert(exists|j: int|
                            0 <= j < survivors.len() && self.modules.possibly_invalid@.contains(
                                survivors[j].candidate_hash,
                            )) by {
                            assert((i as int) < survivors.len()
                                && self.modules.possibly_invalid@.contains(
                                survivors[i as int].candidate_hash,
                            ));
                        }
                    }
                    return Err(InherentError::CandidateCouldBeInvalid);
                }
                i = i + 1;
            }
        }

        // 9. Commit: note the included candidates with the dispute module,
        // reschedule the freed cores, process the candidates, report the
        // occupied cores, pump the upward messages, set the flag.
        let now = self.system.block_number;
        {
            let n = freed_concluded.len();
            let ghost base_noted = self.modules.noted_included@;
            let ghost base_effects = self.modules.effects@;
            let mut k: usize = 0;
            while k < n
                invariant
                    0 <= k <= n,
                    n == freed_concluded@.len(),
                    replies_unchanged(old_modules, self.modules),
                    self.modules.noted_included@ == base_noted + freed_concluded@.take(
                        k as int,
                    ).map_values(
                        |p: (CoreIndex, CandidateHash)| (current_session, p.1, now),
                    ),
                    self.modules.effects@ == base_effects + Seq::new(
                        k as nat,
                        |i: int| RuntimeEffect::NoteIncluded,
                    ),
                    self.modules.scheduler_cleared == old_modules.scheduler_cleared,
                    self.modules.scheduled_freed == old_modules.scheduled_freed,
                    self.modules.occupied_reported == old_modules.occupied_reported,
                    self.modules.ump_processed == old_modules.ump_processed,
                    self.system == old(self).system,
                    !self.included,
                decreases n - k,
            {
                let pair = freed_concluded[k];
                self.modules.note_included(current_session, pair.1, now);
                proof {
                    assert(base_noted + freed_concluded@.take(k as int + 1).map_values(
                        |p: (CoreIndex, CandidateHash)| (current_session, p.1, now),
                    ) =~= (base_noted + freed_concluded@.take(k as int).map_values(
                        |p: (CoreIndex, CandidateHash)| (current_session, p.1, now),
                    )).push((current_session, freed_concluded@[k as int].1, now)));
                    assert(base_effects + Seq::new(
                        k as nat + 1,
                        |i: int| RuntimeEffect::NoteIncluded,
                    ) =~= (base_effects + Seq::new(
                        k as nat,
                        |i: int| RuntimeEffect::NoteIncluded,
                    )).push(RuntimeEffect::NoteIncluded));
                }
                k = k + 1;
            }
            proof {
                assert(freed_concluded@.take(n as int) =~= freed_concluded@);
            }
        }

        self.modules.scheduler_clear();
        self.modules.schedule(freed, now);

        let parent_storage_root = data.parent_header.state_root;
        let scheduled = self.modules.scheduled();
        let occupied = self.modules.process_candidates(
            parent_storage_root,
            &backed_candidates,
            scheduled,
        );
        self.modules.occupied(occupied);

        self.modules.process_pending_upward_messages();

        self.included = true;

        proof {
            lemma_retain_len(data.backed_candidates@, 1);
            assert(self.modules.effects@ =~= old_modules.effects@ + Seq::new(
                old_modules.freed_concluded@.len(),
                |i: int| RuntimeEffect::NoteIncluded,
            ) + seq![
                RuntimeEffect::SchedulerClear,
                RuntimeEffect::Schedule,
                RuntimeEffect::Occupied,
                RuntimeEffect::UmpProcessed,
            ]);
        }
        let backed_candidates_len = backed_candidates.len() as u64;
        Ok(MINIMAL_INCLUSION_INHERENT_WEIGHT + backed_candidates_len * BACKED_CANDIDATE_WEIGHT)
    }

    /// Whether `enter` would fail on this payload, were it dispatched now
    /// with the none origin.
    fn enter_would_fail(&self, data: &ParachainsInherentData) -> (r: bool)
        ensures
            r <==> spec_enter_error(
                self.system,
                self.modules,
                self.included,
                Origin::Unsigned,
                data.parent_header,
                data.backed_candidates@,
            ) is Some,
    {
        if self.included {
            return true;
        }
        if crate::chain::header_hash(&data.parent_header) != self.system.parent_hash {
            return true;
        }
        if self.modules.is_frozen() {
            return false;
        }
        let backed_candidates = limit_backed_candidates(
            copy_vec(&data.backed_candidates),
            &self.system,
        );
        let n = backed_candidates.len();
        let mut i: usize = 0;
        while i < n
            invariant
                0 <= i <= n,
                n == backed_candidates@.len(),
                backed_candidates@ == spec_limit_backed_candidates(
                    data.backed_candidates@,
                    self.system.block_weight,
                    self.system.max_block_weight,
                ),
                forall|j: int|
                    0 <= j < i ==> !self.modules.possibly_invalid@.contains(
                        backed_candidates@[j].candidate_hash,
                    ),
                !self.included,
                spec_header_hash(data.parent_header) == self.system.parent_hash,
                !self.modules.frozen,
            decreases n - i,
        {
            if self.modules.could_be_invalid(
                self.system.session_index,
                backed_candidates[i].candidate_hash,
            ) {
                proof {
                    let survivors = spec_limit_backed_candidates(
                        data.backed_candidates@,
                        self.system.block_weight,
                        self.system.max_block_weight,
                    );
                    assert(exists|j: int|
                        0 <= j < survivors.len() && self.modules.possibly_invalid@.contains(
                            survivors[j].candidate_hash,
                        )) by {
                        assert((i as int) < survivors.len()
                            && self.modules.possibly_invalid@.contains(
                            survivors[i as int].candidate_hash,
                        ));
                    }
                }
                return true;
            }
            i = i + 1;
        }
        false
    }

    /// Builds the inherent call for block authoring.
    ///
    /// The payload's disputes are first filtered down to the statements
    /// worth submitting.  The checks of `enter` are then dry-run: session
    /// changes can invalidate an inherent, and an invalid block must never
    /// be produced, so on failure the bitfields, candidates and disputes
    /// are dropped and only the parent header is kept.
    pub fn create_inherent(&self, data: Option<ParachainsInherentData>) -> (r: Option<Call>)
        ensures
            r is Some <==> data is Some,
            (data is Some && r is Some) ==> ({
                let d = data.unwrap();
                let err = spec_enter_error(
                    self.system,
                    self.modules,
                    self.included,
                    Origin::Unsigned,
                    d.parent_header,
                    d.backed_candidates@,
                );
                match r.unwrap() {
                    Call::Enter(out) => {
                        &&& out.parent_header == d.parent_header
                        &&& (err is None ==> out.bitfields@ == d.bitfields@
                            && out.backed_candidates@ == d.backed_candidates@ && out.disputes@
                            == self.modules.filtered_disputes@)
                        &&& (err is Some ==> out.bitfields@.len() == 0
                            && out.backed_candidates@.len() == 0 && out.disputes@.len() == 0)
                    },
                }
            }),
    {
        let d = match data {
            None => {
                return None;
            },
            Some(d) => d,
        };
        // Filter out the dispute statements not worth submitting.
        let filtered = self.modules.filter_multi_dispute_data(d.disputes);
        let d = ParachainsInherentData {
            bitfields: d.bitfields,
            backed_candidates: d.backed_candidates,
            disputes: filtered,
            parent_header: d.parent_header,
        };
        if self.enter_would_fail(&d) {
            // Dropping the bitfields and backed candidates: they would have
            // produced an invalid paras inherent.
            Some(
                Call::Enter(
                    ParachainsInherentData {
                        bitfields: Vec::new(),
                        backed_candidates: Vec::new(),
                        disputes: Vec::new(),
                        parent_header: d.parent_header,
                    },
                ),
            )
        } else {
            Some(Call::Enter(d))
        }
    }

    /// Whether the call is a paras inherent.
    pub fn is_inherent(call: &Call) -> (r: bool)
        ensures
            r == (*call matches Call::Enter(_)),
    {
        matches!(call, Call::Enter(..))
    }
}

} // verus!
