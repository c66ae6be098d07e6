//! The local key layout of the store.
//!
//! The store keeps two families of local records per region, raft data
//! and region meta data, under distinct prefixes so that startup can
//! iterate the small meta family without touching the large raft family.
//! User data lives under its own one-byte prefix.  All region ids and log
//! indexes are laid out as eight big-endian bytes so that byte order
//! agrees with numeric order.
//!
//! Each contract below gives a key's length, its prefix and suffix bytes,
//! and the big-endian value of each id field; since one value has one
//! eight-byte form ([`codec::lemma_be_value_injective`]), that pins the
//! key down completely.

use vstd::prelude::*;

use crate::codec;

verus! {

/// The first byte of every local record.
pub const LOCAL_PREFIX: u8 = 0x01;

/// The second byte of a region's raft records.
pub const REGION_RAFT_PREFIX: u8 = 0x02;

/// The second byte of a region's meta records.
pub const REGION_META_PREFIX: u8 = 0x03;

/// The first byte of every user data key (ASCII `z`).
pub const DATA_PREFIX: u8 = 0x7a;

/// The suffix of a raft log record, after the region id.
pub const RAFT_LOG_SUFFIX: u8 = 0x01;

/// The suffix of a raft hard-state record.
pub const RAFT_HARD_STATE_SUFFIX: u8 = 0x02;

/// The suffix of a raft applied-index record.
pub const RAFT_APPLIED_INDEX_SUFFIX: u8 = 0x03;

/// The suffix of a raft last-index record.
pub const RAFT_LAST_INDEX_SUFFIX: u8 = 0x04;

/// The suffix of a raft truncated-state record.
pub const RAFT_TRUNCATED_STATE_SUFFIX: u8 = 0x05;

/// The suffix of a region info record, after the region id.
pub const REGION_INFO_SUFFIX: u8 = 0x01;

/// The suffix of a region tombstone record.
pub const REGION_TOMBSTONE_SUFFIX: u8 = 0x02;

/// A failure to take a key apart.
#[derive(Debug, Clone, Copy, PartialEq, Eq, Structural)]
pub enum KeyError {
    /// A region meta key must be exactly eleven bytes.
    InvalidRegionMetaKeyLength,
    /// A region meta key must begin with the local meta prefix.
    InvalidRegionMetaPrefix,
    /// A data key must begin with the data prefix.
    InvalidDataKeyPrefix,
}

/// What the key routines read of a region: its key range, both ends in
/// raw (unprefixed) form, the end exclusive and empty meaning unbounded.
pub struct Region {
    pub start_key: Vec<u8>,
    pub end_key: Vec<u8>,
}

/// The key of the store's identity record.
pub fn store_ident_key() -> (r: Vec<u8>)
    ensures
        r@ == seq![LOCAL_PREFIX, 0x01u8],
{
    let mut key: Vec<u8> = Vec::new();
    key.push(LOCAL_PREFIX);
    key.push(0x01);
    proof {
        assert(key@ =~= seq![LOCAL_PREFIX, 0x01u8]);
    }
    key
}

/// The common prefix of one region's raft records: the local raft prefix
/// and the region id.
pub fn region_raft_prefix(region_id: u64) -> (r: Vec<u8>)
    ensures
        r@.len() == 10,
        r@[0] == LOCAL_PREFIX,
        r@[1] == REGION_RAFT_PREFIX,
        codec::be_value(r@.subrange(2, 10)) == region_id as nat,
{
    let mut key: Vec<u8> = Vec::new();
    key.push(LOCAL_PREFIX);
    key.push(REGION_RAFT_PREFIX);
    let enc = codec::encode_u64(region_id);
    codec::push_all(&mut key, &enc);
    proof {
        assert(key@.subrange(2, 10) =~= enc@);
    }
    key
}

/// One region-scoped raft record key: the raft prefix, the region id,
/// and a record suffix.
fn make_region_id_key(region_id: u64, suffix: u8) -> (r: Vec<u8>)
    ensures
        r@.len() == 11,
        r@[0] == LOCAL_PREFIX,
        r@[1] == REGION_RAFT_PREFIX,
        codec::be_value(r@.subrange(2, 10)) == region_id as nat,
        r@[10] == suffix,
{
    let mut key = region_raft_prefix(region_id);
    let ghost prefix = key@;
    key.push(suffix);
    proof {
        assert(key@.subrange(2, 10) =~= prefix.subrange(2, 10));
    }
    key
}

/// The key of one raft log entry: the region's log prefix and the log
/// index, so that byte order sorts entries by index.
pub fn raft_log_key(region_id: u64, log_index: u64) -> (r: Vec<u8>)
    ensures
        r@.len() == 19,
        r@[0] == LOCAL_PREFIX,
        r@[1] == REGION_RAFT_PREFIX,
        codec::be_value(r@.subrange(2, 10)) == region_id as nat,
        r@[10] == RAFT_LOG_SUFFIX,
        codec::be_value(r@.subrange(11, 19)) == log_index as nat,
{
    let mut key = make_region_id_key(region_id, RAFT_LOG_SUFFIX);
    let ghost prefix = key@;
    let enc = codec::encode_u64(log_index);
    codec::push_all(&mut key, &enc);
    proof {
        assert(key@.subrange(0, 11) =~= prefix);
        assert(key@.subrange(2, 10) =~= prefix.subrange(2, 10));
        assert(key@.subrange(11, 19) =~= enc@);
    }
    key
}

/// The common prefix of one region's raft log entries.
pub fn raft_log_prefix(region_id: u64) -> (r: Vec<u8>)
    ensures
        r@.len() == 11,
        r@[0] == LOCAL_PREFIX,
        r@[1] == REGION_RAFT_PREFIX,
        codec::be_value(r@.subrange(2, 10)) == region_id as nat,
        r@[10] == RAFT_LOG_SUFFIX,
{
    make_region_id_key(region_id, RAFT_LOG_SUFFIX)
}

/// The key of one region's raft hard state.
pub fn raft_hard_state_key(region_id: u64) -> (r: Vec<u8>)
    ensures
        r@.len() == 11,
        r@[0] == LOCAL_PREFIX,
        r@[1] == REGION_RAFT_PREFIX,
        codec::be_value(r@.subrange(2, 10)) == region_id as nat,
        r@[10] == RAFT_HARD_STATE_SUFFIX,
{
    make_region_id_key(region_id, RAFT_HARD_STATE_SUFFIX)
}

/// The key of one region's applied index.
pub fn raft_applied_index_key(region_id: u64) -> (r: Vec<u8>)
    ensures
        r@.len() == 11,
        r@[0] == LOCAL_PREFIX,
        r@[1] == REGION_RAFT_PREFIX,
        codec::be_value(r@.subrange(2, 10)) == region_id as nat,
        r@[10] == RAFT_APPLIED_INDEX_SUFFIX,
{
    make_region_id_key(region_id, RAFT_APPLIED_INDEX_SUFFIX)
}

/// The key of one region's last index.
pub fn raft_last_index_key(region_id: u64) -> (r: Vec<u8>)
    ensures
        r@.len() == 11,
        r@[0] == LOCAL_PREFIX,
        r@[1] == REGION_RAFT_PREFIX,
        codec::be_value(r@.subrange(2, 10)) == region_id as nat,
        r@[10] == RAFT_LAST_INDEX_SUFFIX,
{
    make_region_id_key(region_id, RAFT_LAST_INDEX_SUFFIX)
}

/// The key of one region's truncated state.
pub fn raft_truncated_state_key(region_id: u64) -> (r: Vec<u8>)
    ensures
        r@.len() == 11,
        r@[0] == LOCAL_PREFIX,
        r@[1] == REGION_RAFT_PREFIX,
        codec::be_value(r@.subrange(2, 10)) == region_id as nat,
        r@[10] == RAFT_TRUNCATED_STATE_SUFFIX,
{
    make_region_id_key(region_id, RAFT_TRUNCATED_STATE_SUFFIX)
}

/// The common prefix of one region's meta records: the local meta prefix
/// and the region id.
pub fn region_meta_prefix(region_id: u64) -> (r: Vec<u8>)
    ensures
        r@.len() == 10,
        r@[0] == LOCAL_PREFIX,
        r@[1] == REGION_META_PREFIX,
        codec::be_value(r@.subrange(2, 10)) == region_id as nat,
{
    let mut key: Vec<u8> = Vec::new();
    key.push(LOCAL_PREFIX);
    key.push(REGION_META_PREFIX);
    let enc = codec::encode_u64(region_id);
    codec::push_all(&mut key, &enc);
    proof {
        assert(key@.subrange(2, 10) =~= enc@);
    }
    key
}

/// One region-scoped meta record key: the meta prefix, the region id,
/// and a record suffix.
fn make_region_meta_key(region_id: u64, suffix: u8) -> (r: Vec<u8>)
    ensures
        r@.len() == 11,
        r@[0] == LOCAL_PREFIX,
        r@[1] == REGION_META_PREFIX,
        codec::be_value(r@.subrange(2, 10)) == region_id as nat,
        r@[10] == suffix,
{
    let mut key = region_meta_prefix(region_id);
    let ghost prefix = key@;
    key.push(suffix);
    proof {
        assert(key@.subrange(2, 10) =~= prefix.subrange(2, 10));
    }
    key
}

/// Take a region meta key apart into the region id and the record
/// suffix.  Succeeds exactly on eleven-byte keys that begin with the
/// local meta prefix.
pub fn decode_region_meta_key(key: &[u8]) -> (r: Result<(u64, u8), KeyError>)
    ensures
        match r {
            Ok((id, suffix)) => {
                &&& key@.len() == 11
                &&& key@[0] == LOCAL_PREFIX
                &&& key@[1] == REGION_META_PREFIX
                &&& id as nat == codec::be_value(key@.subrange(2, 10))
                &&& suffix == key@[10]
            },
            Err(KeyError::InvalidRegionMetaKeyLength) => key@.len() != 11,
            Err(KeyError::InvalidRegionMetaPrefix) => key@.len() == 11 && !(key@[0] == LOCAL_PREFIX
                && key@[1] == REGION_META_PREFIX),
            Err(KeyError::InvalidDataKeyPrefix) => false,
        },
{
    if key.len() != 11 {
        return Err(KeyError::InvalidRegionMetaKeyLength);
    }
    if !(key[0] == LOCAL_PREFIX && key[1] == REGION_META_PREFIX) {
        return Err(KeyError::InvalidRegionMetaPrefix);
    }
    let region_id = codec::be_read(&key[2..10]);
    Ok((region_id, key[10]))
}

/// The key of one region's info record.
pub fn region_info_key(region_id: u64) -> (r: Vec<u8>)
    ensures
        r@.len() == 11,
        r@[0] == LOCAL_PREFIX,
        r@[1] == REGION_META_PREFIX,
        codec::be_value(r@.subrange(2, 10)) == region_id as nat,
        r@[10] == REGION_INFO_SUFFIX,
{
    make_region_meta_key(region_id, REGION_INFO_SUFFIX)
}

/// The key of one region's tombstone record.  A destroyed peer leaves
/// the region's greatest peer id here; no peer with a smaller or equal
/// id may be created in this store again.
pub fn region_tombstone_key(region_id: u64) -> (r: Vec<u8>)
    ensures
        r@.len() == 11,
        r@[0] == LOCAL_PREFIX,
        r@[1] == REGION_META_PREFIX,
        codec::be_value(r@.subrange(2, 10)) == region_id as nat,
        r@[10] == REGION_TOMBSTONE_SUFFIX,
{
    make_region_meta_key(region_id, REGION_TOMBSTONE_SUFFIX)
}

/// Check that a key carries the data prefix.
pub fn validate_data_key(key: &[u8]) -> (r: Result<(), KeyError>)
    ensures
        r == if key@.len() >= 1 && key@[0] == DATA_PREFIX {
            Ok::<(), KeyError>(())
        } else {
            Err::<(), KeyError>(KeyError::InvalidDataKeyPrefix)
        },
{
    if key.len() >= 1 && key[0] == DATA_PREFIX {
        Ok(())
    } else {
        Err(KeyError::InvalidDataKeyPrefix)
    }
}

/// A raw key in stored form: the data prefix, then the key.
pub fn data_key(key: &[u8]) -> (r: Vec<u8>)
    ensures
        r@ == seq![DATA_PREFIX] + key@,
{
    let mut v: Vec<u8> = Vec::new();
    v.push(DATA_PREFIX);
    let mut i: usize = 0;
    while i < key.len()
        invariant
            i <= key@.len(),
            v@ == seq![DATA_PREFIX] + key@.take(i as int),
        decreases key@.len() - i,
    {
        v.push(key[i]);
        i = i + 1;
        proof {
            assert(v@ =~= seq![DATA_PREFIX] + key@.take(i as int));
        }
    }
    proof {
        assert(seq![DATA_PREFIX] + key@.take(key@.len() as int) =~= seq![DATA_PREFIX] + key@);
    }
    v
}

/// The raw key behind a stored data key.  The key must carry the data
/// prefix; [`validate_data_key`] tells.
pub fn origin_key(key: &[u8]) -> (r: &[u8])
    requires
        key@.len() >= 1,
        key@[0] == DATA_PREFIX,
    ensures
        r@ == key@.skip(1),
{
    &key[1..key.len()]
}

/// The start of a region's range in stored form.
pub fn enc_start_key(region: &Region) -> (r: Vec<u8>)
    ensures
        r@ == seq![DATA_PREFIX] + region.start_key@,
{
    data_key(region.start_key.as_slice())
}

/// The end of a region's range in stored form; an empty end means the
/// whole data family, whose upper bound is the byte after the data
/// prefix.
pub fn enc_end_key(region: &Region) -> (r: Vec<u8>)
    ensures
        r@ == if region.end_key@.len() == 0 {
            seq![(DATA_PREFIX + 1) as u8]
        } else {
            seq![DATA_PREFIX] + region.end_key@
        },
{
    if region.end_key.len() == 0 {
        let mut v: Vec<u8> = Vec::new();
        v.push(DATA_PREFIX + 1);
        proof {
            assert(v@ =~= seq![(DATA_PREFIX + 1) as u8]);
        }
        v
    } else {
        data_key(region.end_key.as_slice())
    }
}

} // verus!
