//! References to running queries.

use vstd::prelude::*;

use crate::assoc::entries_insert;
use crate::assoc::entries_map;
use crate::assoc::has_key;
use crate::assoc::key_index;
use crate::assoc::lemma_filtered;
use crate::assoc::lemma_key_index;
use crate::kad::behaviour::Behaviour;
use crate::kad::events::QueryInfo;
use crate::kad::events::QueryStats;
use crate::kad::kbucket::lemma_filter_push;
use crate::kad::protocol::QueryId;
use crate::kad::query::Query;
use crate::kad::query::QueryPeers;
use crate::kad::query::QueryPool;

verus! {

/// A reference to a running query.
pub struct QueryRef<'a> {
    /// The query.
    pub query: &'a Query,
}

/// A mutable reference to a running query.
pub struct QueryMut<'a> {
    /// The query.
    pub query: &'a mut Query,
}

impl<'a> QueryRef<'a> {
    /// The number of the query.
    pub fn id(&self) -> (r: QueryId)
        ensures
            r == self.query.id,
    {
        self.query.id
    }

    /// What the query is about.
    pub fn info(&self) -> (r: &QueryInfo)
        ensures
            *r == self.query.info,
    {
        &self.query.info
    }

    /// The statistics of the query, in its current phase.
    pub fn stats(&self) -> (r: &QueryStats)
        ensures
            *r == self.query.stats,
    {
        &self.query.stats
    }
}

impl<'a> QueryMut<'a> {
    /// The query as it is.
    pub open spec fn target(&self) -> Query {
        *self.query
    }

    /// The number of the query.
    pub fn id(&self) -> (r: QueryId)
        ensures
            r == self.target().id,
    {
        self.query.id
    }

    /// What the query is about.
    pub fn info(&self) -> (r: &QueryInfo)
        ensures
            *r == self.target().info,
    {
        &self.query.info
    }

    /// The statistics of the query, in its current phase.
    pub fn stats(&self) -> (r: &QueryStats)
        ensures
            *r == self.target().stats,
    {
        &self.query.stats
    }

    /// Ends the query as soon as possible.
    pub fn finish(&mut self)
        ensures
            *final(self).query == (Query {
                peers: QueryPeers { finished: true, ..old(self).query.peers },
                ..*old(self).query
            }),
            *final(final(self).query) == *final(old(self).query),
    {
        self.query.finish();
    }
}

/// Tells running queries from those that are to end.
pub open spec fn is_running() -> spec_fn((QueryId, Query)) -> bool {
    |e: (QueryId, Query)| !e.1.peers.finished
}

/// Whether the query with the given number is running.
pub open spec fn runs(pool: QueryPool, id: QueryId) -> bool {
    let entries = pool.queries.entries@;
    has_key(entries, id) && !entries[key_index(entries, id)].1.peers.finished
}

/// A query is listed with the running ones exactly if it is in the pool and not to end, and it
/// can be referred to by its number exactly if it is.
pub proof fn law_running_queries_are_shown(pool: QueryPool, id: QueryId, q: Query)
    requires
        pool.wf(),
    ensures
        pool.queries.entries@.filter(is_running()).contains((id, q)) <==> pool@.contains_key(id)
            && pool@[id] == q && !q.peers.finished,
        runs(pool, id) <==> pool@.contains_key(id) && !pool@[id].peers.finished,
{
    let entries = pool.queries.entries@;
    lemma_filtered(entries, is_running(), (id, q));
    assert(entries_map(entries).contains_key(id) == has_key(entries, id));
    if has_key(entries, id) {
        let k = key_index(entries, id);
        assert(entries[k] == (id, pool@[id]));
        assert(entries.contains(entries[k]));
    }
    if entries.contains((id, q)) {
        let i = entries.index_of((id, q));
        lemma_key_index(entries, i);
    }
}

impl<TStore> Behaviour<TStore> {
    /// The running queries.
    pub fn iter_queries(&self) -> (r: Vec<QueryRef<'_>>)
        ensures
            ({
                let running = self.queries.queries.entries@.filter(is_running());
                &&& r@.len() == running.len()
                &&& forall|i: int|
                    0 <= i < r@.len() ==> *(#[trigger] r@[i]).query == running[i].1
            }),
    {
        let entries = &self.queries.queries.entries;
        let ghost f = is_running();
        let mut r: Vec<QueryRef<'_>> = Vec::new();
        let n: usize = entries.len();
        let mut i: usize = 0;
        proof {
            reveal(Seq::filter);
        }
        while i < n
            invariant
                n == entries@.len(),
                i <= n,
                f == is_running(),
                r@.len() == entries@.take(i as int).filter(f).len(),
                forall|j: int|
                    0 <= j < r@.len() ==> *(#[trigger] r@[j]).query == entries@.take(
                        i as int,
                    ).filter(f)[j].1,
            decreases n - i,
        {
            proof {
                assert(entries@.take(i + 1) =~= entries@.take(i as int).push(entries@[i as int]));
                lemma_filter_push(entries@.take(i as int), entries@[i as int], f);
            }
            if !entries[i].1.is_finished() {
                r.push(QueryRef { query: &entries[i].1 });
            }
            i = i + 1;
        }
        assert(entries@.take(n as int) =~= entries@);
        r
    }

    /// The numbers of the running queries, each of which can be borrowed by
    /// [`Behaviour::query_mut`].
    pub fn iter_queries_mut(&mut self) -> (r: Vec<QueryId>)
        ensures
            *final(self) == *old(self),
            ({
                let running = old(self).queries.queries.entries@.filter(is_running());
                &&& r@.len() == running.len()
                &&& forall|i: int| 0 <= i < r@.len() ==> #[trigger] r@[i] == running[i].0
            }),
    {
        let ghost f = is_running();
        let mut r: Vec<QueryId> = Vec::new();
        let n: usize = self.queries.queries.entries.len();
        let mut i: usize = 0;
        let ghost entries = self.queries.queries.entries@;
        proof {
            reveal(Seq::filter);
        }
        while i < n
            invariant
                *self == *old(self),
                entries == self.queries.queries.entries@,
                n == entries.len(),
                i <= n,
                f == is_running(),
                r@.len() == entries.take(i as int).filter(f).len(),
                forall|j: int|
                    0 <= j < r@.len() ==> #[trigger] r@[j] == entries.take(i as int).filter(
                        f,
                    )[j].0,
            decreases n - i,
        {
            proof {
                assert(entries.take(i + 1) =~= entries.take(i as int).push(entries[i as int]));
                lemma_filter_push(entries.take(i as int), entries[i as int], f);
            }
            if !self.queries.queries.entries[i].1.is_finished() {
                r.push(self.queries.queries.entries[i].0);
            }
            i = i + 1;
        }
        assert(entries.take(n as int) =~= entries);
        r
    }

    /// The query with the given number, if it is running.
    pub fn query(&self, id: &QueryId) -> (r: Option<QueryRef<'_>>)
        requires
            self.wf(),
        ensures
            r is Some <==> runs(self.queries, *id),
            r matches Some(q) ==> *q.query == self.queries.queries.entries@[key_index(
                self.queries.queries.entries@,
                *id,
            )].1,
    {
        match self.queries.queries.get(id) {
            Some(query) => if !query.is_finished() {
                Some(QueryRef { query })
            } else {
                None
            },
            None => None,
        }
    }

    /// The query with the given number, if it is running, to be changed.
    pub fn query_mut(&mut self, id: &QueryId) -> (r: Option<QueryMut<'_>>)
        requires
            old(self).wf(),
        ensures
            r is Some <==> runs(old(self).queries, *id),
            r is None ==> *final(self) == *old(self),
            r matches Some(m) ==> {
                &&& *m.query == old(self).queries.queries.entries@[key_index(
                    old(self).queries.queries.entries@,
                    *id,
                )].1
                &&& *final(self) == (Behaviour {
                    queries: QueryPool {
                        queries: final(self).queries.queries,
                        ..old(self).queries
                    },
                    ..*old(self)
                })
                &&& final(self).queries.queries.entries@ == entries_insert(
                    old(self).queries.queries.entries@,
                    *id,
                    *final(m.query),
                )
            },
    {
        match self.queries.queries.position(id) {
            Some(i) => {
                if self.queries.queries.entries[i].1.is_finished() {
                    None
                } else {
                    Some(QueryMut { query: &mut self.queries.queries.entries[i].1 })
                }
            },
            None => None,
        }
    }
}

} // verus!
