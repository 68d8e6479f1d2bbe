//! Records and the store that keeps them.

use std::sync::Arc;

use libp2p_core::Multiaddr;
use libp2p_identity::PeerId;
use vstd::prelude::*;

use crate::assoc::Ident;
use crate::time::Moment;

verus! {

/// The key of a record.
#[derive(Debug, PartialEq, Eq)]
pub struct Key {
    /// The bytes of the key.
    pub bytes: Arc<Vec<u8>>,
}

impl Clone for Key {
    fn clone(&self) -> (r: Key)
        ensures
            r == *self,
    {
        Key { bytes: self.bytes.clone() }
    }
}

impl View for Key {
    type V = Seq<u8>;

    open spec fn view(&self) -> Seq<u8> {
        self.bytes@
    }
}

impl Key {
    /// The key with the given bytes.
    pub fn new(bytes: Vec<u8>) -> (r: Key)
        ensures
            r@ == bytes@,
    {
        Key { bytes: Arc::new(bytes) }
    }

    /// The bytes of the key.
    pub fn to_vec(&self) -> (r: Vec<u8>)
        ensures
            r@ == self@,
    {
        let bytes: &Vec<u8> = &self.bytes;
        let r = bytes.clone();
        assert(r@ =~= self@);
        r
    }

    /// Whether two keys have the same bytes.
    pub fn equals(&self, other: &Key) -> (r: bool)
        ensures
            r == (self@ == other@),
    {
        let a: &Vec<u8> = &self.bytes;
        let b: &Vec<u8> = &other.bytes;
        let n: usize = a.len();
        if n != b.len() {
            return false;
        }
        let mut i: usize = 0;
        while i < n
            invariant
                n == a@.len(),
                n == b@.len(),
                i <= n,
                a@ == self@,
                b@ == other@,
                forall|j: int| 0 <= j < i ==> a@[j] == b@[j],
            decreases n - i,
        {
            if a[i] != b[i] {
                return false;
            }
            i = i + 1;
        }
        assert(self@ =~= other@);
        true
    }
}

/// A value that is stored in the hash table.
#[derive(Debug, PartialEq, Eq)]
pub struct Record {
    /// The key of the record.
    pub key: Key,
    /// The value.
    pub value: Arc<Vec<u8>>,
    /// The peer that published the record.
    pub publisher: Option<PeerId>,
    /// When the record expires, if ever.
    pub expires: Option<Moment>,
}

impl Clone for Record {
    fn clone(&self) -> (r: Record)
        ensures
            r == *self,
    {
        Record {
            key: self.key.clone(),
            value: self.value.clone(),
            publisher: self.publisher,
            expires: self.expires,
        }
    }
}

/// Whether something that expires at `expires` has done so.
pub open spec fn expired(expires: Option<Moment>, now: Moment) -> bool {
    expires matches Some(t) && now.nanos >= t.nanos
}

impl Record {
    /// Whether the record has expired.
    pub fn is_expired(&self, now: Moment) -> (r: bool)
        ensures
            r == expired(self.expires, now),
    {
        match self.expires {
            Some(t) => now.reached(&t),
            None => false,
        }
    }
}

/// The announcement that a peer provides the value of a key.
#[derive(Debug, PartialEq, Eq)]
pub struct ProviderRecord {
    /// The key.
    pub key: Key,
    /// The provider.
    pub provider: PeerId,
    /// When the record expires, if ever.
    pub expires: Option<Moment>,
    /// The addresses of the provider.
    pub addresses: Vec<Multiaddr>,
}

impl ProviderRecord {
    /// A provider record that does not expire.
    pub fn new(key: Key, provider: PeerId, addresses: Vec<Multiaddr>) -> (r: Self)
        ensures
            r == (ProviderRecord { key, provider, expires: None, addresses }),
    {
        ProviderRecord { key, provider, expires: None, addresses }
    }

    /// Whether the record has expired.
    pub fn is_expired(&self, now: Moment) -> (r: bool)
        ensures
            r == expired(self.expires, now),
    {
        match self.expires {
            Some(t) => now.reached(&t),
            None => false,
        }
    }
}

/// Why a store refused a record.
#[derive(Clone, Copy, Debug, PartialEq, Eq, Structural)]
pub enum StoreError {
    /// There are too many records.
    MaxRecords,
    /// There are too many keys with providers.
    MaxProvidedKeys,
    /// The value is too large.
    ValueTooLarge,
}

/// The error of a result, if it is one.
pub open spec fn error_of(r: Result<(), StoreError>) -> Option<StoreError> {
    match r {
        Ok(_) => None,
        Err(e) => Some(e),
    }
}

/// A store of records and provider records.
///
/// What a store does is up to it. Each of its operations comes with a relation that says
/// what the operation may return and how it may change the store, so that others can say
/// which operation was performed, and on what. A store that says nothing of itself may do
/// anything.
pub trait RecordStore: Sized {
    /// Whether `r` may be returned for the record of `key`.
    open spec fn may_get(self, key: Key, r: Option<Record>) -> bool {
        true
    }

    /// Whether storing `record` may lead from this store to `after`, with the given error if
    /// any.
    open spec fn may_put(self, record: Record, after: Self, error: Option<StoreError>) -> bool {
        true
    }

    /// Whether removing the record of `key` may lead from this store to `after`.
    open spec fn may_remove(self, key: Key, after: Self) -> bool {
        true
    }

    /// Whether storing a provider record may lead from this store to `after`, with the given
    /// error if any.
    open spec fn may_add_provider(
        self,
        record: ProviderRecord,
        after: Self,
        error: Option<StoreError>,
    ) -> bool {
        true
    }

    /// Whether `r` may be returned for the provider records of `key`.
    open spec fn may_list_providers(self, key: Key, r: Seq<ProviderRecord>) -> bool {
        true
    }

    /// Whether removing a provider of `key` may lead from this store to `after`.
    open spec fn may_remove_provider(self, key: Key, provider: PeerId, after: Self) -> bool {
        true
    }

    /// Gets the record of a key.
    fn get(&self, key: &Key) -> (r: Option<Record>)
        ensures
            self.may_get(*key, r),
    ;

    /// Stores a record.
    fn put(&mut self, record: Record) -> (r: Result<(), StoreError>)
        ensures
            old(self).may_put(record, *final(self), error_of(r)),
    ;

    /// Removes the record of a key.
    fn remove(&mut self, key: &Key)
        ensures
            old(self).may_remove(*key, *final(self)),
    ;

    /// Stores a provider record.
    fn add_provider(&mut self, record: ProviderRecord) -> (r: Result<(), StoreError>)
        ensures
            old(self).may_add_provider(record, *final(self), error_of(r)),
    ;

    /// Gets the provider records of a key.
    fn providers(&self, key: &Key) -> (r: Vec<ProviderRecord>)
        ensures
            self.may_list_providers(*key, r@),
    ;

    /// Removes a provider of a key.
    fn remove_provider(&mut self, key: &Key, provider: &PeerId)
        ensures
            old(self).may_remove_provider(*key, *provider, *final(self)),
    ;
}

} // verus!
