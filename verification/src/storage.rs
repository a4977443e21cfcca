//! Snapshots and lookups of a store.

use vstd::prelude::*;
use crate::database::{borrowed_views, Database, DatabaseView, Record};
use crate::json::{pretty_text, to_pretty};
use crate::lifetime::Lifetime;
use crate::lookup::{found_view, Lookup};
use crate::merge::{
    latest, lemma_latest_push, lemma_merged_empty, lemma_merged_push, merged, records_read,
    visit_of, visited, visits_of, Structured,
};
use crate::metric::{Metric, MetricView};
use crate::names::decode_name;
use crate::snapshot::{snapshot_json, Snapshot};

verus! {

/// What a snapshot of `store` lists: the merged view of its records.
pub open spec fn structured(database: DatabaseView, store: Seq<char>) -> Structured {
    merged(visited(database, store))
}

/// The snapshot of `store` as JSON, which is absent where the store has no
/// record.
pub open spec fn snapshot_value(database: DatabaseView, store: Seq<char>) -> Option<
    serde_json::Value,
> {
    if visited(database, store).len() == 0 {
        None
    } else {
        Some(snapshot_json(structured(database, store)))
    }
}

/// The database after a snapshot of `store` has been taken.
pub open spec fn after_snapshot(database: DatabaseView, store: Seq<char>, clear: bool) -> DatabaseView {
    if clear {
        database.without_ping(store)
    } else {
        database
    }
}

/// The metric that `store` has under the name `name`, if it has one.
pub open spec fn looked_up(database: DatabaseView, store: Seq<char>, name: Seq<char>) -> Option<
    MetricView,
> {
    latest(visited(database, store), name)
}

/// Takes snapshots of the stores of a database.
pub struct StorageManager;

impl StorageManager {
    /// The records of the store `store_name` in the order of reading: those
    /// with the lifetime `Ping`, then `Application`, then `User`.
    fn read<'a>(storage: &'a Database, store_name: &str) -> (records: Vec<&'a Record>)
        ensures
            borrowed_views(records@) == records_read(storage@, store_name@),
    {
        let mut records = storage.iter_store_from(Lifetime::Ping, store_name);
        let mut application = storage.iter_store_from(Lifetime::Application, store_name);
        let mut user = storage.iter_store_from(Lifetime::User, store_name);
        let ghost first = records@;
        let ghost second = application@;
        let ghost third = user@;
        records.append(&mut application);
        records.append(&mut user);
        assert(borrowed_views(records@) =~= borrowed_views(first) + borrowed_views(second)
            + borrowed_views(third));
        records
    }

    /// The snapshot of the store `store_name` as pretty-printed JSON text, or
    /// `None` where the store has no record. With `clear_store`, the
    /// records of the store that have the lifetime `Ping` are deleted once
    /// they have been read.
    pub fn snapshot(&self, storage: &mut Database, store_name: &str, clear_store: bool) -> (text:
        Option<String>)
        ensures
            final(storage)@ == after_snapshot(old(storage)@, store_name@, clear_store),
            match text {
                Some(text) => snapshot_value(old(storage)@, store_name@) matches Some(value)
                    && text@ == pretty_text(value),
                None => snapshot_value(old(storage)@, store_name@) is None,
            },
    {
        match self.snapshot_as_json(storage, store_name, clear_store) {
            Some(value) => to_pretty(&value),
            None => None,
        }
    }

    /// The snapshot of the store `store_name` as a JSON object of
    /// categories, or `None` where the store has no record. With
    /// `clear_store`, the records of the store that have the lifetime `Ping`
    /// are deleted once they have been read, whether or not there were any.
    pub fn snapshot_as_json(
        &self,
        storage: &mut Database,
        store_name: &str,
        clear_store: bool,
    ) -> (value: Option<serde_json::Value>)
        ensures
            final(storage)@ == after_snapshot(old(storage)@, store_name@, clear_store),
            value == snapshot_value(old(storage)@, store_name@),
    {
        let records = Self::read(storage, store_name);
        let ghost visits = visited(storage@, store_name@);
        let mut snapshot = Snapshot::new();
        let mut i: usize = 0;
        assert(visits.take(0) =~= Seq::empty());
        proof {
            lemma_merged_empty(visits.take(0));
        }
        while i < records.len()
            invariant
                0 <= i <= records.len(),
                visits == visits_of(borrowed_views(records@)),
                snapshot@ == merged(visits.take(i as int)),
            decreases records.len() - i,
        {
            let record = records[i];
            proof {
                assert(visits.take(i + 1) =~= visits.take(i as int).push(visit_of(record@)));
                lemma_merged_push(visits.take(i as int), visit_of(record@));
            }
            snapshot.insert(
                record.metric().category(),
                decode_name(record.key()),
                record.metric().as_json(),
            );
            i += 1;
        }
        assert(visits.take(i as int) =~= visits);
        proof {
            lemma_merged_empty(visits);
        }
        let value = if snapshot.is_empty() {
            None
        } else {
            Some(snapshot.to_json())
        };
        if clear_store {
            storage.clear_ping_lifetime_storage(store_name);
        }
        value
    }

    /// The metric that the store `store_name` has under the name
    /// `metric_id`: the one read last, or `None` where the store has no
    /// record of that name.
    pub fn snapshot_metric(&self, storage: &Database, store_name: &str, metric_id: &str) -> (metric:
        Option<Metric>)
        ensures
            found_view(metric) == looked_up(storage@, store_name@, metric_id@),
    {
        let records = Self::read(storage, store_name);
        let ghost visits = visited(storage@, store_name@);
        let mut lookup = Lookup::new(metric_id);
        let mut i: usize = 0;
        assert(visits.take(0) =~= Seq::empty());
        while i < records.len()
            invariant
                0 <= i <= records.len(),
                visits == visits_of(borrowed_views(records@)),
                lookup@.wanted == metric_id@,
                lookup@.found == latest(visits.take(i as int), metric_id@),
            decreases records.len() - i,
        {
            let record = records[i];
            proof {
                assert(visits.take(i + 1) =~= visits.take(i as int).push(visit_of(record@)));
                lemma_latest_push(visits.take(i as int), visit_of(record@), metric_id@);
            }
            lookup.visit(decode_name(record.key()), record.metric());
            i += 1;
        }
        assert(visits.take(i as int) =~= visits);
        lookup.finish()
    }
}

} // verus!
