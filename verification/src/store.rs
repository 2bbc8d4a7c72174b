//! The persistent store: a durable ordered map from proposal key to encoded
//! record, kept in stable memory through `ic_stable_structures`. This is the
//! crate's only trusted boundary: the map itself is held opaquely, its
//! contents are named by an uninterpreted function, and each primitive the
//! service calls carries the contract that the crate's source shows.

use vstd::prelude::*;

use crate::codec::enc_record;
use crate::codec::record_wf;
use crate::model::ProposalModel;
use crate::model::record_inv;

verus! {

/// A stable-memory B-tree map from `u64` keys to encoded records. The struct
/// is opaque to the verifier; everything known about it goes through
/// `store_contents` and the trusted primitives below. The store owns its
/// memory region exclusively: the service opens it once per process, and
/// nothing else ever writes that region.
#[verifier::external_body]
pub struct StableStore {
    map: ic_stable_structures::BTreeMap<
        u64,
        std::vec::Vec<u8>,
        ic_stable_structures::DefaultMemoryImpl,
    >,
}

/// The mapping the store currently holds, from key to stored byte string.
pub uninterp spec fn store_contents(s: StableStore) -> Map<u64, Seq<u8>>;

/// The byte string encodes exactly this well-formed, internally consistent
/// record.
pub open spec fn models_bytes(m: ProposalModel, bytes: Seq<u8>) -> bool {
    record_wf(m) && record_inv(m) && bytes == enc_record(m)
}

/// The byte string is the encoding of some well-formed, internally
/// consistent record.
pub open spec fn is_stored_record(bytes: Seq<u8>) -> bool {
    exists|m: ProposalModel| #[trigger] models_bytes(m, bytes)
}

/// Every byte string the mapping holds encodes such a record.
pub open spec fn all_stored_records(contents: Map<u64, Seq<u8>>) -> bool {
    forall|k: u64| #[trigger] contents.contains_key(k) ==> is_stored_record(contents[k])
}

impl StableStore {
    /// Relies on `BTreeMap::init` over `DefaultMemoryImpl::default()`: it
    /// loads the map the memory already holds, or creates an empty one on
    /// fresh memory. On the canister target the default memory is the
    /// process's one persistent stable region, so the records that earlier
    /// runs of this service wrote come back after a restart; elsewhere the
    /// default memory starts fresh and the map starts empty. Either way the
    /// region was only ever written through `insert` below, which stores
    /// nothing but encodings of well-formed, internally consistent records,
    /// and a B-tree map holds finitely many entries.
    #[verifier::external_body]
    pub fn init() -> (s: StableStore)
        ensures
            store_contents(s).dom().finite(),
            all_stored_records(store_contents(s)),
    {
        StableStore {
            map: ic_stable_structures::BTreeMap::init(
                ic_stable_structures::DefaultMemoryImpl::default(),
            ),
        }
    }

    /// Relies on `BTreeMap::get`: returns the value stored under the key, or
    /// nothing if the key is absent, without side effects.
    #[verifier::external_body]
    pub(crate) fn get(&self, key: u64) -> (r: Option<Vec<u8>>)
        ensures
            match r {
                Some(v) => store_contents(*self).contains_key(key) && v@ == store_contents(
                    *self,
                )[key],
                None => !store_contents(*self).contains_key(key),
            },
    {
        self.map.get(&key)
    }

    /// Relies on `BTreeMap::insert`: stores the value under the key and
    /// returns the previous value if one existed. The value type's bound is
    /// unbounded, so the write itself never rejects a length.
    #[verifier::external_body]
    pub(crate) fn insert(&mut self, key: u64, value: Vec<u8>) -> (r: Option<Vec<u8>>)
        ensures
            store_contents(*final(self)) == store_contents(*old(self)).insert(key, value@),
            match r {
                Some(v) => store_contents(*old(self)).contains_key(key) && v@ == store_contents(
                    *old(self),
                )[key],
                None => !store_contents(*old(self)).contains_key(key),
            },
    {
        self.map.insert(key, value)
    }

    /// Relies on `BTreeMap::len`: the number of entries in the map.
    #[verifier::external_body]
    pub(crate) fn len(&self) -> (r: u64)
        ensures
            r as nat == store_contents(*self).dom().len(),
    {
        self.map.len()
    }
}

} // verus!
