use std::cmp::Ordering;

use xeval::keys::{
    data_key, decode_region_meta_key, enc_end_key, enc_start_key, origin_key, raft_applied_index_key,
    raft_hard_state_key, raft_last_index_key, raft_log_key, raft_log_prefix, raft_truncated_state_key,
    region_info_key, region_meta_prefix, region_raft_prefix, region_tombstone_key, store_ident_key,
    validate_data_key, KeyError, Region, DATA_PREFIX, LOCAL_PREFIX, REGION_INFO_SUFFIX,
};

#[test]
fn test_region_id_key() {
    let region_ids = vec![0, 1, 1024, u64::MAX];
    for region_id in region_ids {
        let prefix = region_raft_prefix(region_id);

        assert!(raft_log_prefix(region_id).starts_with(&prefix));
        assert!(raft_log_key(region_id, 1).starts_with(&prefix));
        assert!(raft_hard_state_key(region_id).starts_with(&prefix));
        assert!(raft_applied_index_key(region_id).starts_with(&prefix));
        assert!(raft_last_index_key(region_id).starts_with(&prefix));
        assert!(raft_truncated_state_key(region_id).starts_with(&prefix));
    }

    // test sort.
    let tbls = vec![(1, 0, Ordering::Greater), (1, 1, Ordering::Equal), (1, 2, Ordering::Less)];
    for (lid, rid, order) in tbls {
        let lhs = region_raft_prefix(lid);
        let rhs = region_raft_prefix(rid);
        assert_eq!(lhs.partial_cmp(&rhs), Some(order));
    }
}

#[test]
fn test_raft_log_sort() {
    let tbls = vec![
        (1, 1, 1, 2, Ordering::Less),
        (2, 1, 1, 2, Ordering::Greater),
        (1, 1, 1, 1, Ordering::Equal),
    ];

    for (lid, l_log_id, rid, r_log_id, order) in tbls {
        let lhs = raft_log_key(lid, l_log_id);
        let rhs = raft_log_key(rid, r_log_id);
        assert_eq!(lhs.partial_cmp(&rhs), Some(order));
    }
}

#[test]
fn test_region_meta_key() {
    let ids: Vec<u64> = vec![1, 1024, u64::MAX];
    for id in ids {
        let prefix = region_meta_prefix(id);
        let info_key = region_info_key(id);
        assert!(info_key.starts_with(&prefix));

        assert_eq!(decode_region_meta_key(&info_key).unwrap(), (id, REGION_INFO_SUFFIX));
    }

    // test sort.
    let tbls: Vec<(u64, u64, Ordering)> = vec![
        (1, 2, Ordering::Less),
        (1, 1, Ordering::Equal),
        (2, 1, Ordering::Greater),
    ];

    for (lkey, rkey, order) in tbls {
        let lhs = region_info_key(lkey);
        let rhs = region_info_key(rkey);
        assert_eq!(lhs.partial_cmp(&rhs), Some(order));
    }
}

#[test]
fn test_data_key() {
    validate_data_key(&data_key(b"abc")).unwrap();
    validate_data_key(b"abc").unwrap_err();
}

#[test]
fn test_store_ident_key_layout() {
    assert_eq!(store_ident_key(), vec![LOCAL_PREFIX, 0x01]);
}

#[test]
fn test_origin_key_strips_prefix() {
    let stored = data_key(b"abc");
    assert_eq!(origin_key(&stored), b"abc");
    assert_eq!(stored[0], DATA_PREFIX);
}

#[test]
fn test_decode_region_meta_key_errors() {
    assert_eq!(
        decode_region_meta_key(b"short"),
        Err(KeyError::InvalidRegionMetaKeyLength)
    );
    let mut bad = region_info_key(7);
    bad[1] = 0x02;
    assert_eq!(decode_region_meta_key(&bad), Err(KeyError::InvalidRegionMetaPrefix));
}

#[test]
fn test_region_tombstone_key_layout() {
    let key = region_tombstone_key(5);
    let prefix = region_meta_prefix(5);
    assert!(key.starts_with(&prefix));
    assert_eq!(key.len(), 11);
}

#[test]
fn test_region_detail() {
    // a freshly bootstrapped region spans everything: both ends of its
    // range are empty, and its stored form covers the whole data family
    let region = Region { start_key: vec![], end_key: vec![] };
    assert!(region.start_key.is_empty());
    assert!(region.end_key.is_empty());
    assert_eq!(enc_start_key(&region), vec![DATA_PREFIX]);
    assert_eq!(enc_end_key(&region), vec![DATA_PREFIX + 1]);
    assert!(enc_start_key(&region) < enc_end_key(&region));
}

#[test]
fn test_enc_region_range() {
    let region = Region { start_key: b"a".to_vec(), end_key: b"b".to_vec() };
    assert_eq!(enc_start_key(&region), data_key(b"a"));
    assert_eq!(enc_end_key(&region), data_key(b"b"));

    let unbounded = Region { start_key: vec![], end_key: vec![] };
    assert_eq!(enc_start_key(&unbounded), vec![DATA_PREFIX]);
    assert_eq!(enc_end_key(&unbounded), vec![DATA_PREFIX + 1]);
}
