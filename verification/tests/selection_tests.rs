use relay_core::chain::{header_hash, Header, HeaderStore};
use relay_core::fallback::{LongestChain, SelectRelayChainWithFallback};
use relay_core::selection::{
    BlockDescription, HighestApprovedAncestorBlock, Metrics, Oracle, SelectRelayChain,
    SelectionError, MAX_FINALITY_LAG,
};

/// The hash this chain gives the block at a height.
fn hash_at(number: u32) -> u64 {
    1000 + number as u64
}

/// A linear chain of headers at heights `0..=top`.
fn linear_chain(top: u32) -> HeaderStore {
    let mut store = HeaderStore::new();
    let mut number: u32 = 0;
    while number <= top {
        let parent_hash = if number == 0 { 0 } else { hash_at(number - 1) };
        store.insert(
            hash_at(number),
            Header { parent_hash, number, state_root: 7 * number as u64 },
        );
        number += 1;
    }
    store
}

fn connected_oracle() -> Oracle {
    Oracle {
        connected: true,
        leaves_reply: vec![],
        best_leaf_reply: None,
        approved_reply: None,
        undisputed_reply: None,
    }
}

fn descriptions(from: u32, count: u32) -> Vec<BlockDescription> {
    (0..count)
        .map(|i| BlockDescription { block_hash: hash_at(from + i), candidate_hashes: vec![] })
        .collect()
}

fn selector(store: HeaderStore, oracle: Oracle) -> SelectRelayChain {
    SelectRelayChain::new(store, oracle, Metrics::default())
}

#[test]
fn no_leaves_is_an_error_only_for_best_chain() {
    let s = selector(linear_chain(3), connected_oracle());
    assert_eq!(s.leaves().unwrap(), Vec::<u64>::new());
    assert_eq!(s.best_chain().unwrap_err(), SelectionError::EmptyLeaves);
}

#[test]
fn best_chain_returns_the_first_leaf_header() {
    let mut oracle = connected_oracle();
    oracle.leaves_reply = vec![hash_at(3), hash_at(1)];
    let s = selector(linear_chain(3), oracle);
    assert_eq!(s.best_chain().unwrap().number, 3);
}

#[test]
fn simple_finality_follows_the_approved_ancestor() {
    // leaf at 100 containing the target at 50; approval reports 80 with one
    // description per block of (50, 80]
    let mut oracle = connected_oracle();
    oracle.best_leaf_reply = Some(hash_at(100));
    oracle.approved_reply = Some(HighestApprovedAncestorBlock {
        hash: hash_at(80),
        number: 80,
        descriptions: descriptions(51, 30),
    });
    let mut s = selector(linear_chain(100), oracle);
    let voted = s.finality_target(hash_at(50), None).unwrap();
    assert_eq!(voted, Some(hash_at(80)));
    // approval lag 100 - 80; the dispute stage gave nothing further up
    assert_eq!(s.metrics.approval_checking_finality_lag, 20);
    assert_eq!(s.metrics.disputes_finality_lag, 20);
}

#[test]
fn disputes_narrow_the_vote() {
    let mut oracle = connected_oracle();
    oracle.best_leaf_reply = Some(hash_at(100));
    oracle.approved_reply = Some(HighestApprovedAncestorBlock {
        hash: hash_at(80),
        number: 80,
        descriptions: descriptions(51, 30),
    });
    oracle.undisputed_reply = Some((70, hash_at(70)));
    let mut s = selector(linear_chain(100), oracle);
    assert_eq!(s.finality_target(hash_at(50), None).unwrap(), Some(hash_at(70)));
    assert_eq!(s.metrics.approval_checking_finality_lag, 20);
    assert_eq!(s.metrics.disputes_finality_lag, 30);
}

#[test]
fn lag_at_the_bound_leaves_the_safety_net_inactive() {
    // no approved ancestor: the subchain collapses to the target at 50,
    // lag exactly 50 with the leaf at 100
    let mut oracle = connected_oracle();
    oracle.best_leaf_reply = Some(hash_at(100));
    let mut s = selector(linear_chain(100), oracle);
    assert_eq!(s.finality_target(hash_at(50), None).unwrap(), Some(hash_at(50)));
    assert_eq!(s.metrics.approval_checking_finality_lag, MAX_FINALITY_LAG);
}

#[test]
fn safety_net_forces_a_vote_above_the_target() {
    // one block more: lag 51 exceeds the bound, the forced vote sits at
    // height 101 - 50 = 51
    let mut oracle = connected_oracle();
    oracle.best_leaf_reply = Some(hash_at(101));
    let mut s = selector(linear_chain(101), oracle);
    assert_eq!(s.finality_target(hash_at(50), None).unwrap(), Some(hash_at(51)));
    assert_eq!(s.metrics.approval_checking_finality_lag, 51);
}

#[test]
fn inconsistent_oracle_data_votes_for_the_target() {
    // 29 descriptions cannot describe the 30 blocks of (50, 80]
    let mut oracle = connected_oracle();
    oracle.best_leaf_reply = Some(hash_at(100));
    oracle.approved_reply = Some(HighestApprovedAncestorBlock {
        hash: hash_at(80),
        number: 80,
        descriptions: descriptions(51, 29),
    });
    let mut s = selector(linear_chain(100), oracle);
    assert_eq!(s.finality_target(hash_at(50), None).unwrap(), Some(hash_at(50)));
    // the lag stage was never reached
    assert_eq!(s.metrics.approval_checking_finality_lag, 0);
}

#[test]
fn no_viable_leaf_votes_for_the_target() {
    let mut s = selector(linear_chain(10), connected_oracle());
    assert_eq!(s.finality_target(hash_at(4), None).unwrap(), Some(hash_at(4)));
}

#[test]
fn max_number_clamps_the_leaf() {
    // max 70 walks the leaf at 100 back to 70 before asking approval;
    // approval reports 60
    let mut oracle = connected_oracle();
    oracle.best_leaf_reply = Some(hash_at(100));
    oracle.approved_reply = Some(HighestApprovedAncestorBlock {
        hash: hash_at(60),
        number: 60,
        descriptions: descriptions(51, 10),
    });
    let mut s = selector(linear_chain(100), oracle);
    assert_eq!(s.finality_target(hash_at(50), Some(70)).unwrap(), Some(hash_at(60)));
    // the lag counts from the clamped leaf at 70
    assert_eq!(s.metrics.approval_checking_finality_lag, 10);
}

#[test]
fn max_number_at_or_below_the_target_votes_for_the_target() {
    let mut oracle = connected_oracle();
    oracle.best_leaf_reply = Some(hash_at(100));
    let mut s = selector(linear_chain(100), oracle);
    assert_eq!(s.finality_target(hash_at(50), Some(50)).unwrap(), Some(hash_at(50)));
    assert_eq!(s.finality_target(hash_at(50), Some(40)).unwrap(), Some(hash_at(50)));
}

#[test]
fn missing_target_header_is_a_chain_lookup_error() {
    let mut oracle = connected_oracle();
    oracle.best_leaf_reply = Some(hash_at(10));
    let mut s = selector(linear_chain(10), oracle);
    assert_eq!(s.finality_target(999_999, None).unwrap_err(), SelectionError::ChainLookup);
}

#[test]
fn disconnected_overseer_is_an_error() {
    let mut s = selector(linear_chain(10), Oracle::disconnected());
    assert_eq!(s.leaves().unwrap_err(), SelectionError::OverseerDisconnected);
    assert_eq!(s.best_chain().unwrap_err(), SelectionError::OverseerDisconnected);
    assert_eq!(
        s.finality_target(hash_at(4), None).unwrap_err(),
        SelectionError::OverseerDisconnected
    );
}

#[test]
fn walking_backwards_finds_the_ancestor_at_the_height() {
    let store = linear_chain(10);
    let top = store.get_header(hash_at(10)).unwrap();
    let (hash, number) = store.walk_backwards_to_target_block(3, hash_at(10), &top).unwrap();
    assert_eq!((hash, number), (hash_at(3), 3));
}

#[test]
fn header_hashing_is_deterministic() {
    let h = Header { parent_hash: 3, number: 9, state_root: 27 };
    assert_eq!(header_hash(&h), header_hash(&h.clone()));
    let other = Header { parent_hash: 3, number: 10, state_root: 27 };
    assert_ne!(header_hash(&h), header_hash(&other));
}

#[test]
fn longest_chain_finds_leaves_and_best_header() {
    // a fork: 0 - 1 - 2 and a side block at height 1
    let mut store = HeaderStore::new();
    store.insert(hash_at(0), Header { parent_hash: 0, number: 0, state_root: 0 });
    store.insert(hash_at(1), Header { parent_hash: hash_at(0), number: 1, state_root: 0 });
    store.insert(hash_at(2), Header { parent_hash: hash_at(1), number: 2, state_root: 0 });
    store.insert(5555, Header { parent_hash: hash_at(0), number: 1, state_root: 1 });
    let lc = LongestChain::new(store);
    let mut leaves = lc.leaves();
    leaves.sort();
    assert_eq!(leaves, vec![hash_at(2), 5555]);
    assert_eq!(lc.best_chain().unwrap().number, 2);
}

#[test]
fn fallback_serves_while_disconnected() {
    let mut with_fallback = SelectRelayChainWithFallback::new(
        linear_chain(5),
        Oracle::disconnected(),
        Metrics::default(),
    );
    // longest-chain behavior: the tip is the best chain, the one leaf
    assert_eq!(with_fallback.best_chain().unwrap().number, 5);
    assert_eq!(with_fallback.leaves().unwrap(), vec![hash_at(5)]);
    // the conservative vote while no oracle is reachable
    assert_eq!(with_fallback.finality_target(hash_at(2), None).unwrap(), Some(hash_at(2)));
}

#[test]
fn connecting_the_overseer_switches_to_selection() {
    let mut with_fallback = SelectRelayChainWithFallback::new(
        linear_chain(100),
        Oracle::disconnected(),
        Metrics::default(),
    );
    let mut oracle = connected_oracle();
    oracle.best_leaf_reply = Some(hash_at(100));
    oracle.leaves_reply = vec![hash_at(100)];
    oracle.approved_reply = Some(HighestApprovedAncestorBlock {
        hash: hash_at(80),
        number: 80,
        descriptions: descriptions(51, 30),
    });
    with_fallback.connect_to_overseer(oracle);
    assert_eq!(with_fallback.leaves().unwrap(), vec![hash_at(100)]);
    assert_eq!(
        with_fallback.finality_target(hash_at(50), None).unwrap(),
        Some(hash_at(80))
    );
}

#[test]
fn gauges_start_at_zero() {
    let metrics = Metrics::default();
    assert_eq!(metrics.approval_checking_finality_lag, 0);
    assert_eq!(metrics.disputes_finality_lag, 0);
}
