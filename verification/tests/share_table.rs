//! Accounting of blocks that several requests share.

use tessera::{BlockId, CrossAgentShareTable};

fn rate(st: &CrossAgentShareTable) -> f64 {
    let (shared, total) = st.sharing_rate();
    if total == 0 {
        0.0
    } else {
        shared as f64 / total as f64
    }
}

#[test]
fn add_and_release_roundtrip() {
    let mut st = CrossAgentShareTable::new();
    st.add_share(1, BlockId(10));
    st.add_share(2, BlockId(10));
    st.add_share(2, BlockId(11));

    assert_eq!(st.shared_block_count(), 2);
    let owners = st.owners(BlockId(10)).unwrap();
    assert_eq!(owners.len(), 2);

    let freed_for_req2 = st.release_request(2);
    assert_eq!(freed_for_req2.len(), 2);
    // Block 10 should still have req 1.
    assert_eq!(st.owners(BlockId(10)).unwrap(), vec![1]);
    // Block 11 had only req 2, so it should be gone.
    assert!(st.owners(BlockId(11)).is_none());
}

#[test]
fn release_of_only_owner_drops_the_block() {
    let mut st = CrossAgentShareTable::new();
    st.add_share(7, BlockId(99));
    assert_eq!(st.shared_block_count(), 1);
    let to_free = st.release_request(7);
    assert_eq!(to_free, vec![BlockId(99)]);
    assert!(st.owners(BlockId(99)).is_none());
}

#[test]
fn partial_release_keeps_block_alive() {
    let mut st = CrossAgentShareTable::new();
    st.add_share(1, BlockId(5));
    st.add_share(2, BlockId(5));
    let to_free = st.release_request(1);
    assert_eq!(to_free, vec![BlockId(5)]);
    // Still owned by req 2.
    assert_eq!(st.owners(BlockId(5)).unwrap(), vec![2]);
}

#[test]
fn sharing_rate_is_bounded_and_monotone() {
    let mut st = CrossAgentShareTable::new();
    assert_eq!(rate(&st), 0.0);
    st.add_share(1, BlockId(1));
    assert!(rate(&st) > 0.0 && rate(&st) <= 1.0);
}

#[test]
fn release_of_a_stranger_frees_nothing() {
    let mut st = CrossAgentShareTable::default();
    st.add_share(1, BlockId(3));
    assert_eq!(st.release_request(2), vec![]);
    assert_eq!(st.owners(BlockId(3)).unwrap(), vec![1]);
    assert_eq!(st.release_request(1), vec![BlockId(3)]);
    assert_eq!(st.release_request(1), vec![]);
    assert_eq!(st.shared_block_count(), 0);
}

#[test]
fn sharing_rate_counts_shares_ever_made() {
    let mut st = CrossAgentShareTable::new();
    st.add_share(1, BlockId(1));
    st.add_share(2, BlockId(1));
    st.add_share(3, BlockId(2));
    assert_eq!(st.sharing_rate(), (3, 3));
    st.release_request(3);
    assert_eq!(st.sharing_rate(), (2, 3));
    st.release_request(1);
    assert_eq!(st.sharing_rate(), (1, 3));
    assert_eq!(st.shared_ref_count(), 1);
    st.release_request(2);
    assert_eq!(st.sharing_rate(), (0, 3));
}

#[test]
fn a_request_that_shares_twice_owns_twice() {
    let mut st = CrossAgentShareTable::new();
    st.add_share(1, BlockId(4));
    st.add_share(1, BlockId(4));
    assert_eq!(st.owners(BlockId(4)).unwrap(), vec![1, 1]);
    assert_eq!(st.release_request(1), vec![BlockId(4), BlockId(4)]);
    assert!(st.owners(BlockId(4)).is_none());
}

#[test]
fn every_reference_to_a_shared_block_counts() {
    let mut st = CrossAgentShareTable::new();
    st.add_share(1, BlockId(1));
    st.add_share(2, BlockId(1));
    assert_eq!(rate(&st), 1.0);
    assert_eq!(st.shared_block_count(), 1);
    st.add_share(2, BlockId(1));
    assert_eq!(st.sharing_rate(), (3, 3));
    st.release_request(2);
    assert_eq!(st.sharing_rate(), (1, 3));
}
