use relay_core::chain::{header_hash, Header};
use relay_core::inherent::{
    AvailabilityBitfield, BackedCandidate, Call, DisputeStatementSet, FreedReason, InherentError,
    Origin, ParachainsInherentData, ParasInherent, RuntimeEffect, RuntimeModules, SystemState,
    BACKED_CANDIDATE_WEIGHT, MINIMAL_INCLUSION_INHERENT_WEIGHT, PARACHAINS_INHERENT_IDENTIFIER,
};

const MAX_BLOCK_WEIGHT: u64 = 1_000_000;

fn default_header() -> Header {
    Header { parent_hash: 0, number: 0, state_root: 0 }
}

fn default_modules() -> RuntimeModules {
    RuntimeModules {
        fresh_disputes: vec![],
        frozen: false,
        disputed_cores: vec![],
        freed_concluded: vec![],
        timeout_predicate_active: false,
        timed_out_cores: vec![],
        possibly_invalid: vec![],
        occupied_cores: vec![],
        n_availability_cores: 0,
        scheduled_assignments: vec![],
        filtered_disputes: vec![],
        noted_included: vec![],
        scheduler_cleared: false,
        scheduled_freed: None,
        occupied_reported: None,
        ump_processed: false,
        effects: vec![],
    }
}

fn default_system(block_weight: u64) -> SystemState {
    SystemState {
        parent_hash: header_hash(&default_header()),
        block_number: 1,
        session_index: 5,
        block_weight,
        max_block_weight: MAX_BLOCK_WEIGHT,
        db_read_write_weight: 200,
    }
}

fn default_data(backed_candidates: Vec<BackedCandidate>) -> ParachainsInherentData {
    ParachainsInherentData {
        bitfields: vec![],
        backed_candidates,
        disputes: vec![],
        parent_header: default_header(),
    }
}

fn limit(backed: Vec<BackedCandidate>, system: &SystemState) -> Vec<BackedCandidate> {
    relay_core::inherent::limit_backed_candidates(backed, system)
}

#[test]
fn does_not_truncate_on_empty_block() {
    let backed_candidates = vec![BackedCandidate::default()];
    let system = default_system(0);
    assert_eq!(limit(backed_candidates, &system).len(), 1);
}

#[test]
fn does_not_truncate_on_exactly_full_block() {
    let backed_candidates = vec![BackedCandidate::default()];
    // consumed resources precisely equal to the max block weight: no truncation
    let system = default_system(MAX_BLOCK_WEIGHT);
    assert_eq!(limit(backed_candidates, &system).len(), 1);
}

#[test]
fn truncates_on_over_full_block() {
    let backed_candidates = vec![BackedCandidate::default()];
    let system = default_system(MAX_BLOCK_WEIGHT + 1);
    assert_eq!(limit(backed_candidates, &system).len(), 0);
}

#[test]
fn all_backed_candidates_get_truncated() {
    let backed_candidates = vec![BackedCandidate::default(); 10];
    let system = default_system(MAX_BLOCK_WEIGHT + 1);
    assert_eq!(limit(backed_candidates, &system).len(), 0);
}

#[test]
fn ignores_subsequent_code_upgrades() {
    let mut backed = BackedCandidate::default();
    backed.has_code_upgrade = true;
    let backed_candidates = vec![backed; 3];
    let system = default_system(0);
    assert_eq!(limit(backed_candidates, &system).len(), 1);
}

#[test]
fn weight_does_not_change_on_happy_path() {
    // number of bitfields doesn't affect the weight: leave them empty
    let backed_candidates = vec![BackedCandidate::default(); 10];
    let expected_weight =
        MINIMAL_INCLUSION_INHERENT_WEIGHT + backed_candidates.len() as u64 * BACKED_CANDIDATE_WEIGHT;
    // half the block weight used: plenty of margin
    let mut m = ParasInherent {
        system: default_system(MAX_BLOCK_WEIGHT / 2),
        modules: default_modules(),
        included: false,
    };
    let actual_weight = m.enter(Origin::Unsigned, &default_data(backed_candidates)).unwrap();
    assert_eq!(actual_weight, expected_weight);
}

#[test]
fn weight_changes_when_backed_candidates_are_truncated() {
    let backed_candidates = vec![BackedCandidate::default(); 10];
    // with every candidate truncated only the minimum weight remains
    let expected_weight = MINIMAL_INCLUSION_INHERENT_WEIGHT;
    // oops, looks like this mandatory call pushed the block weight over the limit
    let mut m = ParasInherent {
        system: default_system(MAX_BLOCK_WEIGHT + 1),
        modules: default_modules(),
        included: false,
    };
    let actual_weight = m.enter(Origin::Unsigned, &default_data(backed_candidates)).unwrap();
    assert_eq!(actual_weight, expected_weight);
}

#[test]
fn code_upgrade_cap_keeps_the_first() {
    let mk = |h: u64| BackedCandidate { candidate_hash: h, has_code_upgrade: true };
    let plain = BackedCandidate { candidate_hash: 9, has_code_upgrade: false };
    let out = limit(vec![plain, mk(1), mk(2), mk(3)], &default_system(0));
    assert_eq!(out.len(), 2);
    assert_eq!(out[0].candidate_hash, 9);
    assert_eq!(out[1].candidate_hash, 1);
}

#[test]
fn double_entry_fails_with_too_many_inclusion_inherents() {
    let mut m = ParasInherent {
        system: default_system(0),
        modules: default_modules(),
        included: false,
    };
    let data = default_data(vec![BackedCandidate::default()]);
    assert!(m.enter(Origin::Unsigned, &data).is_ok());
    assert!(m.included);
    assert_eq!(
        m.enter(Origin::Unsigned, &data).unwrap_err(),
        InherentError::TooManyInclusionInherents
    );
    // the flag survives the failed second call; the block finalizes cleanly
    assert!(m.on_finalize());
}

#[test]
fn parent_mismatch_fails_and_block_is_rejected() {
    let mut m = ParasInherent {
        system: default_system(0),
        modules: default_modules(),
        included: false,
    };
    let mut data = default_data(vec![]);
    data.parent_header = Header { parent_hash: 7, number: 3, state_root: 11 };
    assert_eq!(
        m.enter(Origin::Unsigned, &data).unwrap_err(),
        InherentError::InvalidParentHeader
    );
    assert!(!m.included);
    // Included unset at the end of the block: the reject signal fires
    assert!(!m.on_finalize());
}

#[test]
fn non_inherent_origins_are_rejected() {
    let mut m = ParasInherent {
        system: default_system(0),
        modules: default_modules(),
        included: false,
    };
    let data = default_data(vec![]);
    assert_eq!(m.enter(Origin::Signed, &data).unwrap_err(), InherentError::BadOrigin);
    assert_eq!(m.enter(Origin::Root, &data).unwrap_err(), InherentError::BadOrigin);
}

#[test]
fn frozen_chain_short_circuits_with_minimal_weight() {
    let mut modules = default_modules();
    modules.frozen = true;
    modules.fresh_disputes = vec![(5, 42)];
    let mut m = ParasInherent { system: default_system(0), modules, included: false };
    let weight = m.enter(Origin::Unsigned, &default_data(vec![BackedCandidate::default()])).unwrap();
    assert_eq!(weight, MINIMAL_INCLUSION_INHERENT_WEIGHT);
    assert!(m.included);
    // no further parachain work was done
    assert!(m.modules.effects.is_empty());
    assert!(m.modules.scheduled_freed.is_none());
}

#[test]
fn disputed_candidate_aborts_the_inherent() {
    let mut modules = default_modules();
    modules.possibly_invalid = vec![77];
    let mut m = ParasInherent { system: default_system(0), modules, included: false };
    let data = default_data(vec![BackedCandidate { candidate_hash: 77, has_code_upgrade: false }]);
    assert_eq!(
        m.enter(Origin::Unsigned, &data).unwrap_err(),
        InherentError::CandidateCouldBeInvalid
    );
    // all-or-nothing: nothing was written
    assert!(!m.included);
    assert!(m.modules.effects.is_empty());
    assert!(m.modules.noted_included.is_empty());
}

#[test]
fn freed_cores_are_sorted_and_effects_ordered() {
    let mut modules = default_modules();
    modules.fresh_disputes = vec![(5, 42), (4, 43)];
    modules.disputed_cores = vec![9];
    modules.freed_concluded = vec![(5, 77), (2, 78)];
    modules.timeout_predicate_active = true;
    modules.timed_out_cores = vec![3];
    modules.occupied_cores = vec![1, 4];
    let mut m = ParasInherent { system: default_system(0), modules, included: false };
    let weight = m.enter(Origin::Unsigned, &default_data(vec![])).unwrap();
    assert_eq!(weight, MINIMAL_INCLUSION_INHERENT_WEIGHT);
    // both availability conclusions were noted with the dispute module
    assert_eq!(m.modules.noted_included, vec![(5, 77, 1), (5, 78, 1)]);
    // the freed list is sorted ascending by core index
    assert_eq!(
        m.modules.scheduled_freed.clone().unwrap(),
        vec![
            (2, FreedReason::Concluded),
            (3, FreedReason::TimedOut),
            (5, FreedReason::Concluded),
            (9, FreedReason::Concluded),
        ]
    );
    assert_eq!(m.modules.occupied_reported.clone().unwrap(), vec![1, 4]);
    assert!(m.modules.ump_processed);
    // the contractual order: disputes, bitfields, timeouts, reschedule,
    // candidates, upward messages
    assert_eq!(
        m.modules.effects,
        vec![
            RuntimeEffect::NoteIncluded,
            RuntimeEffect::NoteIncluded,
            RuntimeEffect::SchedulerClear,
            RuntimeEffect::Schedule,
            RuntimeEffect::Occupied,
            RuntimeEffect::UmpProcessed,
        ]
    );
    assert!(m.on_finalize());
}

#[test]
fn other_session_disputes_free_no_cores() {
    let mut modules = default_modules();
    // fresh disputes, none of the current session (5)
    modules.fresh_disputes = vec![(4, 42)];
    modules.disputed_cores = vec![9];
    let mut m = ParasInherent { system: default_system(0), modules, included: false };
    m.enter(Origin::Unsigned, &default_data(vec![])).unwrap();
    assert_eq!(m.modules.scheduled_freed.clone().unwrap(), vec![]);
}

#[test]
fn on_initialize_charges_one_read_and_write() {
    let mut m = ParasInherent {
        system: default_system(0),
        modules: default_modules(),
        included: true,
    };
    assert_eq!(m.on_initialize(), 200);
    // the flag starts every block unset
    assert!(!m.included);
}

#[test]
fn create_inherent_keeps_a_valid_payload_and_filters_disputes() {
    let mut modules = default_modules();
    modules.filtered_disputes = vec![DisputeStatementSet { session: 5, candidate_hash: 42 }];
    let m = ParasInherent { system: default_system(0), modules, included: false };
    let data = ParachainsInherentData {
        bitfields: vec![AvailabilityBitfield { bits: vec![true, false] }],
        backed_candidates: vec![BackedCandidate::default()],
        disputes: vec![
            DisputeStatementSet { session: 5, candidate_hash: 42 },
            DisputeStatementSet { session: 1, candidate_hash: 7 },
        ],
        parent_header: default_header(),
    };
    let Call::Enter(out) = m.create_inherent(Some(data)).unwrap();
    assert_eq!(out.bitfields.len(), 1);
    assert_eq!(out.backed_candidates.len(), 1);
    assert_eq!(out.disputes, vec![DisputeStatementSet { session: 5, candidate_hash: 42 }]);
    assert_eq!(out.parent_header, default_header());
}

#[test]
fn create_inherent_strips_a_failing_payload() {
    // a second inclusion in the same block would fail the dry run
    let m = ParasInherent {
        system: default_system(0),
        modules: default_modules(),
        included: true,
    };
    let data = ParachainsInherentData {
        bitfields: vec![AvailabilityBitfield { bits: vec![true] }],
        backed_candidates: vec![BackedCandidate::default()],
        disputes: vec![DisputeStatementSet { session: 5, candidate_hash: 42 }],
        parent_header: default_header(),
    };
    let Call::Enter(out) = m.create_inherent(Some(data)).unwrap();
    assert!(out.bitfields.is_empty());
    assert!(out.backed_candidates.is_empty());
    assert!(out.disputes.is_empty());
    // only the parent header is kept
    assert_eq!(out.parent_header, default_header());
}

#[test]
fn create_inherent_without_data_builds_no_call() {
    let m = ParasInherent {
        system: default_system(0),
        modules: default_modules(),
        included: false,
    };
    assert!(m.create_inherent(None).is_none());
}

#[test]
fn enter_calls_are_inherents() {
    let call = Call::Enter(default_data(vec![]));
    assert!(ParasInherent::is_inherent(&call));
}

#[test]
fn inherent_identifier_spells_parachn0() {
    assert_eq!(&PARACHAINS_INHERENT_IDENTIFIER, b"parachn0");
}
