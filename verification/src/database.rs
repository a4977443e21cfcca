//! The store that snapshots are taken of.
//!
//! A [`Database`] keeps records in memory, apart for each [`Lifetime`]. A
//! record belongs to a named store and is kept under a key of bytes; within
//! one lifetime a store has one record for a key. Records stay in the order in
//! which their keys were first recorded, which is the order in which they are
//! handed out.

use vstd::prelude::*;
use vstd::slice::slice_to_vec;
use crate::lifetime::Lifetime;
use crate::metric::{Metric, MetricView};

verus! {

/// A metric as it is kept: in a store, under a key.
pub struct Record {
    store: String,
    key: Vec<u8>,
    metric: Metric,
}

/// A record as a mathematical value.
pub struct RecordView {
    pub store: Seq<char>,
    pub key: Seq<u8>,
    pub metric: MetricView,
}

impl View for Record {
    type V = RecordView;

    closed spec fn view(&self) -> RecordView {
        RecordView { store: self.store@, key: self.key@, metric: self.metric@ }
    }
}

impl Record {
    /// The name of the store that the record belongs to.
    pub fn store_name(&self) -> (name: &str)
        ensures
            name@ == self@.store,
    {
        self.store.as_str()
    }

    /// The key under which the record is kept.
    pub fn key(&self) -> (key: &[u8])
        ensures
            key@ == self@.key,
    {
        self.key.as_slice()
    }

    /// The metric that the record holds.
    pub fn metric(&self) -> (metric: &Metric)
        ensures
            metric@ == self@.metric,
    {
        &self.metric
    }
}

/// The records of a sequence as mathematical values.
pub open spec fn record_views(records: Seq<Record>) -> Seq<RecordView> {
    records.map_values(|record: Record| record@)
}

/// The records that a sequence of references leads to, as mathematical values.
pub open spec fn borrowed_views(records: Seq<&Record>) -> Seq<RecordView> {
    records.map_values(|record: &Record| record@)
}

/// Whether a record belongs to the store `store`.
pub open spec fn of_store(store: Seq<char>) -> spec_fn(RecordView) -> bool {
    |record: RecordView| record.store == store
}

/// Whether a record belongs to another store than `store`.
pub open spec fn of_other_store(store: Seq<char>) -> spec_fn(RecordView) -> bool {
    |record: RecordView| record.store != store
}

/// Whether `records[i]` is the record of the store `store` under `key`.
pub open spec fn kept_at(records: Seq<RecordView>, i: int, store: Seq<char>, key: Seq<u8>) -> bool {
    0 <= i < records.len() && records[i].store == store && records[i].key == key
}

/// The first place in `records` that holds a record of `store` under `key`.
pub open spec fn slot(records: Seq<RecordView>, store: Seq<char>, key: Seq<u8>) -> Option<int>
    decreases records.len(),
{
    if records.len() == 0 {
        None
    } else {
        match slot(records.drop_last(), store, key) {
            Some(i) => Some(i),
            None => if kept_at(records, records.len() - 1, store, key) {
                Some(records.len() - 1)
            } else {
                None
            },
        }
    }
}

/// `records` after `record` has been recorded: it takes the place of the
/// record with its store and key, or the last place where there is none.
pub open spec fn put(records: Seq<RecordView>, record: RecordView) -> Seq<RecordView> {
    match slot(records, record.store, record.key) {
        Some(i) => records.update(i, record),
        None => records.push(record),
    }
}

/// `slot` finds the first place that holds the key.
pub proof fn lemma_slot_is_first(records: Seq<RecordView>, store: Seq<char>, key: Seq<u8>, i: int)
    requires
        0 <= i <= records.len(),
        forall|j: int| 0 <= j < i ==> !kept_at(records, j, store, key),
        i < records.len() ==> kept_at(records, i, store, key),
    ensures
        slot(records, store, key) == (if i < records.len() {
            Some(i)
        } else {
            None
        }),
    decreases records.len(),
{
    if records.len() > 0 {
        let front = records.drop_last();
        let k = if i < front.len() {
            i
        } else {
            front.len() as int
        };
        assert forall|j: int| 0 <= j < k implies !kept_at(front, j, store, key) by {
            assert(!kept_at(records, j, store, key));
        }
        lemma_slot_is_first(front, store, key, k);
    }
}

/// The records of every store, apart for each lifetime.
pub struct Database {
    ping: Vec<Record>,
    application: Vec<Record>,
    user: Vec<Record>,
}

/// A database as a mathematical value: for each lifetime its records, in the
/// order in which they are handed out.
pub struct DatabaseView {
    pub ping: Seq<RecordView>,
    pub application: Seq<RecordView>,
    pub user: Seq<RecordView>,
}

impl DatabaseView {
    /// The records kept under `lifetime`.
    pub open spec fn scope(self, lifetime: Lifetime) -> Seq<RecordView> {
        match lifetime {
            Lifetime::Ping => self.ping,
            Lifetime::Application => self.application,
            Lifetime::User => self.user,
        }
    }

    /// The records of the store `store` that are kept under `lifetime`.
    pub open spec fn stored(self, lifetime: Lifetime, store: Seq<char>) -> Seq<RecordView> {
        self.scope(lifetime).filter(of_store(store))
    }

    /// The database after `record` has been recorded under `lifetime`.
    pub open spec fn recorded(self, lifetime: Lifetime, record: RecordView) -> DatabaseView {
        match lifetime {
            Lifetime::Ping => DatabaseView { ping: put(self.ping, record), ..self },
            Lifetime::Application => DatabaseView {
                application: put(self.application, record),
                ..self
            },
            Lifetime::User => DatabaseView { user: put(self.user, record), ..self },
        }
    }

    /// The database after the records of `store` with the lifetime
    /// [`Lifetime::Ping`] have been deleted.
    pub open spec fn without_ping(self, store: Seq<char>) -> DatabaseView {
        DatabaseView { ping: self.ping.filter(of_other_store(store)), ..self }
    }
}

impl View for Database {
    type V = DatabaseView;

    closed spec fn view(&self) -> DatabaseView {
        DatabaseView {
            ping: record_views(self.ping@),
            application: record_views(self.application@),
            user: record_views(self.user@),
        }
    }
}

/// Whether two vectors hold the same bytes.
fn same_bytes(a: &Vec<u8>, b: &Vec<u8>) -> (same: bool)
    ensures
        same == (a@ == b@),
{
    if a.len() != b.len() {
        return false;
    }
    let mut i: usize = 0;
    while i < a.len()
        invariant
            a.len() == b.len(),
            0 <= i <= a.len(),
            forall|j: int| 0 <= j < i ==> a@[j] == b@[j],
        decreases a.len() - i,
    {
        if a[i] != b[i] {
            return false;
        }
        i += 1;
    }
    assert(a@ =~= b@);
    true
}

/// Puts `record` in the place of the record with its store and key, or
/// behind the others where there is none.
fn put_record(records: &mut Vec<Record>, record: Record)
    ensures
        record_views(final(records)@) == put(record_views(old(records)@), record@),
{
    let ghost before = record_views(records@);
    let mut i: usize = 0;
    while i < records.len()
        invariant
            0 <= i <= records.len(),
            records@ == old(records)@,
            before == record_views(records@),
            forall|j: int| 0 <= j < i ==> !kept_at(before, j, record@.store, record@.key),
        decreases records.len() - i,
    {
        if records[i].store == record.store && same_bytes(&records[i].key, &record.key) {
            proof {
                lemma_slot_is_first(before, record@.store, record@.key, i as int);
            }
            records.set(i, record);
            assert(record_views(records@) =~= before.update(i as int, record@));
            return;
        }
        i += 1;
    }
    proof {
        lemma_slot_is_first(before, record@.store, record@.key, i as int);
    }
    records.push(record);
    assert(record_views(records@) =~= before.push(record@));
}

/// The records of `records` that belong to `store`, in their order.
fn select<'a>(records: &'a Vec<Record>, store: &String) -> (found: Vec<&'a Record>)
    ensures
        borrowed_views(found@) == record_views(records@).filter(of_store(store@)),
{
    let ghost all = record_views(records@);
    let mut found: Vec<&'a Record> = Vec::new();
    let mut i: usize = 0;
    assert(all.take(0) =~= Seq::<RecordView>::empty());
    assert(borrowed_views(found@) =~= all.take(0).filter(of_store(store@))) by {
        reveal(Seq::filter);
    }
    while i < records.len()
        invariant
            0 <= i <= records.len(),
            all == record_views(records@),
            borrowed_views(found@) == all.take(i as int).filter(of_store(store@)),
        decreases records.len() - i,
    {
        let record = &records[i];
        proof {
            assert(all.take(i + 1) =~= all.take(i as int).push(record@));
            all.take(i as int).lemma_filter_push(record@, of_store(store@));
        }
        if record.store == *store {
            let ghost earlier = borrowed_views(found@);
            found.push(record);
            assert(borrowed_views(found@) =~= earlier.push(record@));
        }
        i += 1;
    }
    assert(all.take(i as int) =~= all);
    found
}

/// Takes the records of `store` out of `records` and leaves the others in
/// their order.
fn discard(records: &mut Vec<Record>, store: &String)
    ensures
        record_views(final(records)@) == record_views(old(records)@).filter(
            of_other_store(store@),
        ),
{
    let ghost all = record_views(records@);
    let ghost keep = of_other_store(store@);
    let ghost mut seen: int = 0;
    let mut i: usize = 0;
    assert(all.take(0) =~= Seq::<RecordView>::empty());
    assert(record_views(records@).take(0) =~= all.take(0).filter(keep)) by {
        reveal(Seq::filter);
    }
    assert(record_views(records@).skip(0) =~= all.skip(0));
    while i < records.len()
        invariant
            0 <= i <= records.len(),
            0 <= seen <= all.len(),
            keep == of_other_store(store@),
            records.len() - i == all.len() - seen,
            record_views(records@).take(i as int) == all.take(seen).filter(keep),
            record_views(records@).skip(i as int) == all.skip(seen),
        decreases records.len() - i,
    {
        let ghost now = record_views(records@);
        proof {
            assert(now[i as int] == now.skip(i as int)[0]);
            assert(all[seen] == all.skip(seen)[0]);
            assert(all.take(seen + 1) =~= all.take(seen).push(all[seen]));
            all.take(seen).lemma_filter_push(all[seen], keep);
        }
        if records[i].store == *store {
            records.remove(i);
            proof {
                let after = record_views(records@);
                assert(after =~= now.remove(i as int));
                assert(after.take(i as int) =~= now.take(i as int));
                assert(after.skip(i as int) =~= now.skip(i as int).skip(1));
                assert(all.skip(seen + 1) =~= all.skip(seen).skip(1));
                seen = seen + 1;
            }
        } else {
            proof {
                assert(now.take(i + 1) =~= now.take(i as int).push(now[i as int]));
                assert(now.skip(i + 1) =~= now.skip(i as int).skip(1));
                assert(all.skip(seen + 1) =~= all.skip(seen).skip(1));
                seen = seen + 1;
            }
            i += 1;
        }
    }
    assert(record_views(records@).take(i as int) =~= record_views(records@));
    assert(all.take(seen) =~= all);
}

impl Database {
    /// A database without records.
    pub fn new() -> (database: Database)
        ensures
            database@.ping.len() == 0,
            database@.application.len() == 0,
            database@.user.len() == 0,
    {
        Database { ping: Vec::new(), application: Vec::new(), user: Vec::new() }
    }

    /// Records `metric` for the store `store_name` under `key`, with the
    /// given lifetime. A record that the store has under that key with that
    /// lifetime is replaced.
    pub fn record(&mut self, lifetime: Lifetime, store_name: &str, key: &[u8], metric: Metric)
        ensures
            final(self)@ == old(self)@.recorded(
                lifetime,
                RecordView { store: store_name@, key: key@, metric: metric@ },
            ),
    {
        let record = Record { store: store_name.to_owned(), key: slice_to_vec(key), metric };
        match lifetime {
            Lifetime::Ping => put_record(&mut self.ping, record),
            Lifetime::Application => put_record(&mut self.application, record),
            Lifetime::User => put_record(&mut self.user, record),
        }
    }

    /// The records of the store `store_name` that are kept under `lifetime`,
    /// in the order in which they are kept.
    pub fn iter_store_from(&self, lifetime: Lifetime, store_name: &str) -> (found: Vec<&Record>)
        ensures
            borrowed_views(found@) == self@.stored(lifetime, store_name@),
    {
        let store = store_name.to_owned();
        match lifetime {
            Lifetime::Ping => select(&self.ping, &store),
            Lifetime::Application => select(&self.application, &store),
            Lifetime::User => select(&self.user, &store),
        }
    }

    /// Deletes the records of the store `store_name` that have the lifetime
    /// [`Lifetime::Ping`]. Nothing else changes.
    pub fn clear_ping_lifetime_storage(&mut self, store_name: &str)
        ensures
            final(self)@ == old(self)@.without_ping(store_name@),
    {
        let store = store_name.to_owned();
        discard(&mut self.ping, &store);
    }
}

} // verus!
