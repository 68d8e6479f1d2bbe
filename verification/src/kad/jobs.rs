//! Periodic jobs.
//!
//! The timers of the jobs run elsewhere. The records whose turn it is are handed to a job,
//! which yields them one by one.

use std::collections::VecDeque;

use libp2p_identity::PeerId;
use vstd::prelude::*;

use crate::kad::record::Key;
use crate::kad::record::ProviderRecord;
use crate::kad::record::Record;
use crate::time::Duration;

verus! {

/// The number of running queries from which on the jobs start no new ones. The queries are
/// counted before the jobs run.
pub const JOBS_MAX_QUERIES: usize = 100;

/// The most queries that a job starts at once.
pub const JOBS_MAX_NEW_QUERIES: usize = 10;

/// The job that replicates and publishes records.
#[derive(Debug)]
pub struct PutRecordJob {
    /// The local peer.
    pub local_id: PeerId,
    /// The interval of the job.
    pub interval: Duration,
    /// The interval at which records are published.
    pub publish_interval: Option<Duration>,
    /// The time to live of records.
    pub record_ttl: Option<Duration>,
    /// The records that the next run leaves out.
    pub skipped: Vec<Key>,
    /// The records whose turn it is.
    pub ready: VecDeque<Record>,
}

/// The job that publishes provider records.
#[derive(Debug)]
pub struct AddProviderJob {
    /// The interval of the job.
    pub interval: Duration,
    /// The provider records whose turn it is.
    pub ready: VecDeque<ProviderRecord>,
}

/// Whether a key is in a list.
pub open spec fn lists_key(keys: Seq<Key>, key: Key) -> bool {
    exists|i: int| 0 <= i < keys.len() && (#[trigger] keys[i])@ == key@
}

impl PutRecordJob {
    /// Whether `after` is this job once a record is to be left out of the next run.
    pub open spec fn skipping(self, after: PutRecordJob, key: Key) -> bool {
        &&& after == (PutRecordJob { skipped: after.skipped, ..self })
        &&& after.skipped@ == (if lists_key(self.skipped@, key) {
            self.skipped@
        } else {
            self.skipped@.push(key)
        })
    }

    /// A job that has not run.
    pub fn new(
        local_id: PeerId,
        interval: Duration,
        publish_interval: Option<Duration>,
        record_ttl: Option<Duration>,
    ) -> (r: Self)
        ensures
            r.local_id == local_id,
            r.interval == interval,
            r.publish_interval == publish_interval,
            r.record_ttl == record_ttl,
            r.skipped@.len() == 0,
            r.ready@.len() == 0,
    {
        PutRecordJob {
            local_id,
            interval,
            publish_interval,
            record_ttl,
            skipped: Vec::new(),
            ready: VecDeque::new(),
        }
    }

    /// Leaves a record out of the next run.
    pub fn skip(&mut self, key: Key)
        ensures
            old(self).skipping(*final(self), key),
    {
        let n: usize = self.skipped.len();
        let mut i: usize = 0;
        while i < n
            invariant
                n == self.skipped@.len(),
                i <= n,
                *self == *old(self),
                forall|j: int| 0 <= j < i ==> (#[trigger] self.skipped@[j])@ != key@,
            decreases n - i,
        {
            if self.skipped[i].equals(&key) {
                return;
            }
            i = i + 1;
        }
        self.skipped.push(key);
    }
}

impl AddProviderJob {
    /// A job that has not run.
    pub fn new(interval: Duration) -> (r: Self)
        ensures
            r.interval == interval,
            r.ready@.len() == 0,
    {
        AddProviderJob { interval, ready: VecDeque::new() }
    }
}

} // verus!
