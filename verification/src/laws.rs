//! What holds of every snapshot and every lookup.
//!
//! The laws are stated over the mathematical values that the contracts of
//! [`StorageManager`](crate::storage::StorageManager) speak of: the database
//! as three sequences of records, the snapshot as a mapping, the result of a
//! lookup as a metric that may be absent.

use vstd::prelude::*;
use crate::database::{of_other_store, of_store, DatabaseView, RecordView};
use crate::last::{
    is_last_where, last_where, lemma_last_where, lemma_last_where_is, lemma_last_where_joined,
    lemma_last_where_kept, lemma_last_where_mapped, none_where,
};
use crate::lifetime::Lifetime;
use crate::merge::{has_category, listed_as, named, records_read, visit_of, visited, visits_of};
use crate::names::lossy_text;
use crate::storage::{after_snapshot, looked_up, snapshot_value, structured};

verus! {

/// Whether `record` is shown in `category` under `name`.
pub open spec fn shown(category: Seq<char>, name: Seq<char>) -> spec_fn(RecordView) -> bool {
    |record: RecordView| record.metric.category == category && lossy_text(record.key) == name
}

/// Whether `record` belongs to `store` and is shown in `category` under
/// `name`.
pub open spec fn shown_in(store: Seq<char>, category: Seq<char>, name: Seq<char>) -> spec_fn(
    RecordView,
) -> bool {
    |record: RecordView|
        record.store == store && record.metric.category == category && lossy_text(record.key)
            == name
}

/// Whether the database has a record of `store`, under any lifetime.
pub open spec fn holds_records(database: DatabaseView, store: Seq<char>) -> bool {
    exists|lifetime: Lifetime, i: int|
        0 <= i < database.scope(lifetime).len() && (#[trigger] database.scope(lifetime)[i]).store
            == store
}

/// Whether the snapshot of `store` lists `name` in `category`.
pub open spec fn lists(
    database: DatabaseView,
    store: Seq<char>,
    category: Seq<char>,
    name: Seq<char>,
) -> bool {
    structured(database, store).contains_key(category) && structured(
        database,
        store,
    )[category].contains_key(name)
}

/// Whether the record at the place `i` of `lifetime` is the one that takes
/// precedence among the records of `store` shown in `category` under `name`:
/// no record that is read later, with the same lifetime or with a later one,
/// is shown there.
pub open spec fn takes_precedence(
    database: DatabaseView,
    store: Seq<char>,
    category: Seq<char>,
    name: Seq<char>,
    lifetime: Lifetime,
    i: int,
) -> bool {
    &&& is_last_where(database.scope(lifetime), shown_in(store, category, name), i)
    &&& forall|later: Lifetime|
        lifetime.rank() < later.rank() ==> none_where(
            #[trigger] database.scope(later),
            shown_in(store, category, name),
        )
}

/// The items that a condition keeps are none exactly where no item meets
/// the condition.
proof fn lemma_none_kept<T>(items: Seq<T>, kept: spec_fn(T) -> bool)
    ensures
        items.filter(kept).len() == 0 <==> none_where(items, kept),
    decreases items.len(),
{
    reveal(Seq::filter);
    if items.len() > 0 {
        let front = items.drop_last();
        lemma_none_kept(front, kept);
        if none_where(items, kept) {
            assert forall|j: int| 0 <= j < front.len() implies !kept(#[trigger] front[j]) by {
                assert(front[j] == items[j]);
            }
        }
        if items.filter(kept).len() == 0 {
            assert forall|j: int| 0 <= j < items.len() implies !kept(#[trigger] items[j]) by {
                if j < front.len() {
                    assert(front[j] == items[j]);
                }
            }
        }
    }
}

/// Keeping the records of one store after those of another store have been
/// taken out gives what keeping them at once gives; keeping those of the
/// store that was taken out gives nothing.
proof fn lemma_stored_after_discard(records: Seq<RecordView>, gone: Seq<char>, store: Seq<char>)
    ensures
        records.filter(of_other_store(gone)).filter(of_store(store)) == (if store == gone {
            Seq::<RecordView>::empty()
        } else {
            records.filter(of_store(store))
        }),
    decreases records.len(),
{
    reveal(Seq::filter);
    if records.len() > 0 {
        let front = records.drop_last();
        lemma_stored_after_discard(front, gone, store);
        if of_other_store(gone)(records.last()) {
            front.filter(of_other_store(gone)).lemma_filter_push(records.last(), of_store(store));
        }
    } else {
        assert(records.filter(of_other_store(gone)) =~= Seq::<RecordView>::empty());
    }
}

/// The last record of `store` that is shown in `category` under `name`, as it
/// stands among the records read and among the visits made.
proof fn lemma_last_shown(
    database: DatabaseView,
    store: Seq<char>,
    category: Seq<char>,
    name: Seq<char>,
)
    ensures
        last_where(visited(database, store), listed_as(category, name)) == last_where(
            records_read(database, store),
            shown(category, name),
        ),
        match last_where(records_read(database, store), shown(category, name)) {
            Some(k) => exists|lifetime: Lifetime, i: int|
                takes_precedence(database, store, category, name, lifetime, i)
                    && #[trigger] database.scope(lifetime)[i] == records_read(database, store)[k],
            None => forall|lifetime: Lifetime|
                none_where(#[trigger] database.scope(lifetime), shown_in(store, category, name)),
        },
{
    let wanted = shown(category, name);
    let both = shown_in(store, category, name);
    let kept = of_store(store);
    let ping = database.stored(Lifetime::Ping, store);
    let application = database.stored(Lifetime::Application, store);
    let user = database.stored(Lifetime::User, store);
    let read = records_read(database, store);

    let image = |record: RecordView| visit_of(record);
    lemma_last_where_mapped(read, image, listed_as(category, name), wanted);
    assert(visited(database, store) =~= read.map_values(image));

    lemma_last_where_kept(database.ping, kept, wanted, both);
    lemma_last_where_kept(database.application, kept, wanted, both);
    lemma_last_where_kept(database.user, kept, wanted, both);
    lemma_last_where(database.ping, both);
    lemma_last_where(database.application, both);
    lemma_last_where(database.user, both);
    lemma_last_where_joined(ping, application, wanted);
    lemma_last_where_joined(ping + application, user, wanted);

    assert forall|later: Lifetime| Lifetime::User.rank() < later.rank() implies none_where(
        #[trigger] database.scope(later),
        both,
    ) by {}
    match last_where(user, wanted) {
        Some(k) => {
            let i = last_where(database.user, both).unwrap();
            assert(read[ping.len() + application.len() + k] == user[k]);
            assert(takes_precedence(database, store, category, name, Lifetime::User, i));
            assert(database.scope(Lifetime::User)[i] == read[ping.len() + application.len() + k]);
        },
        None => {
            match last_where(application, wanted) {
                Some(k) => {
                    let i = last_where(database.application, both).unwrap();
                    assert(read[ping.len() + k] == application[k]);
                    assert forall|later: Lifetime|
                        Lifetime::Application.rank() < later.rank() implies none_where(
                        #[trigger] database.scope(later),
                        both,
                    ) by {
                        assert(later == Lifetime::User);
                    }
                    assert(takes_precedence(
                        database,
                        store,
                        category,
                        name,
                        Lifetime::Application,
                        i,
                    ));
                    assert(database.scope(Lifetime::Application)[i] == read[ping.len() + k]);
                },
                None => {
                    match last_where(ping, wanted) {
                        Some(k) => {
                            let i = last_where(database.ping, both).unwrap();
                            assert(read[k] == ping[k]);
                            assert forall|later: Lifetime|
                                Lifetime::Ping.rank() < later.rank() implies none_where(
                                #[trigger] database.scope(later),
                                both,
                            ) by {
                                assert(later == Lifetime::User || later == Lifetime::Application);
                            }
                            assert(takes_precedence(
                                database,
                                store,
                                category,
                                name,
                                Lifetime::Ping,
                                i,
                            ));
                            assert(database.scope(Lifetime::Ping)[i] == read[k]);
                        },
                        None => {
                            assert forall|lifetime: Lifetime|
                                none_where(#[trigger] database.scope(lifetime), both) by {
                                match lifetime {
                                    Lifetime::Ping => {},
                                    Lifetime::Application => {},
                                    Lifetime::User => {},
                                }
                            }
                        },
                    }
                },
            }
        },
    }
}

/// A store has a snapshot exactly where it has a record: for a store
/// without records under all three lifetimes, the snapshot is absent.
pub proof fn law_snapshot_absent_without_records(database: DatabaseView, store: Seq<char>)
    ensures
        snapshot_value(database, store) is None <==> !holds_records(database, store),
{
    let kept = of_store(store);
    lemma_none_kept(database.ping, kept);
    lemma_none_kept(database.application, kept);
    lemma_none_kept(database.user, kept);
    if holds_records(database, store) {
        let (lifetime, i) = choose|lifetime: Lifetime, i: int|
            0 <= i < database.scope(lifetime).len() && (#[trigger] database.scope(
                lifetime,
            )[i]).store == store;
        assert(kept(database.scope(lifetime)[i]));
    } else {
        assert forall|lifetime: Lifetime| none_where(#[trigger] database.scope(lifetime), kept) by {
            assert forall|j: int| 0 <= j < database.scope(lifetime).len() implies !kept(
                #[trigger] database.scope(lifetime)[j],
            ) by {}
        }
        assert(none_where(database.scope(Lifetime::Ping), kept));
        assert(none_where(database.scope(Lifetime::Application), kept));
        assert(none_where(database.scope(Lifetime::User), kept));
    }
}

/// A category that a snapshot lists has a metric.
pub proof fn law_listed_category_has_metric(
    database: DatabaseView,
    store: Seq<char>,
    category: Seq<char>,
) -> (name: Seq<char>)
    requires
        structured(database, store).contains_key(category),
    ensures
        lists(database, store, category, name),
{
    let visits = visited(database, store);
    let i = choose|i: int| 0 <= i < visits.len() && (#[trigger] visits[i]).metric.category == category;
    let name = visits[i].name;
    lemma_last_where(visits, listed_as(category, name));
    name
}

/// What a snapshot lists in a category under a name was recorded: the store
/// has a record that is shown there and takes precedence, the one with the
/// latest lifetime among those shown there, and the snapshot lists its value.
pub proof fn law_listed_value_is_latest(
    database: DatabaseView,
    store: Seq<char>,
    category: Seq<char>,
    name: Seq<char>,
) -> (at: (Lifetime, int))
    requires
        lists(database, store, category, name),
    ensures
        takes_precedence(database, store, category, name, at.0, at.1),
        structured(database, store)[category][name] == database.scope(at.0)[at.1].metric.value,
{
    lemma_last_shown(database, store, category, name);
    let read = records_read(database, store);
    let visits = visited(database, store);
    let k = last_where(read, shown(category, name)).unwrap();
    lemma_last_where(read, shown(category, name));
    assert(visits[k] == visit_of(read[k]));
    let (lifetime, i) = choose|lifetime: Lifetime, i: int|
        takes_precedence(database, store, category, name, lifetime, i)
            && #[trigger] database.scope(lifetime)[i] == read[k];
    (lifetime, i)
}

/// The record that takes precedence is listed: where a record of the store
/// is shown in a category under a name and no record read later is, the
/// snapshot lists its value there.
pub proof fn law_latest_record_is_listed(
    database: DatabaseView,
    store: Seq<char>,
    category: Seq<char>,
    name: Seq<char>,
    lifetime: Lifetime,
    i: int,
)
    requires
        takes_precedence(database, store, category, name, lifetime, i),
    ensures
        lists(database, store, category, name),
        structured(database, store)[category][name] == database.scope(lifetime)[i].metric.value,
{
    lemma_last_shown(database, store, category, name);
    let both = shown_in(store, category, name);
    let read = records_read(database, store);
    let visits = visited(database, store);
    lemma_last_where(read, shown(category, name));
    match last_where(read, shown(category, name)) {
        Some(k) => {
            let (found, j) = choose|found: Lifetime, j: int|
                takes_precedence(database, store, category, name, found, j)
                    && #[trigger] database.scope(found)[j] == read[k];
            if found != lifetime {
                if found.rank() < lifetime.rank() {
                    assert(none_where(database.scope(lifetime), both));
                } else {
                    assert(none_where(database.scope(found), both));
                }
                assert(both(database.scope(lifetime)[i]));
                assert(both(database.scope(found)[j]));
            } else if i != j {
                assert(both(database.scope(lifetime)[i]));
                assert(both(database.scope(lifetime)[j]));
            }
            assert(visits[k] == visit_of(read[k]));
            assert(has_category(visits, category));
        },
        None => {
            assert(none_where(database.scope(lifetime), both));
            assert(both(database.scope(lifetime)[i]));
        },
    }
}

/// A snapshot that clears nothing leaves the database as it was, so that
/// the next snapshot of the store is the same.
pub proof fn law_snapshot_repeats(database: DatabaseView, store: Seq<char>)
    ensures
        after_snapshot(database, store, false) == database,
        snapshot_value(after_snapshot(database, store, false), store) == snapshot_value(
            database,
            store,
        ),
{
}

/// A snapshot that clears deletes the records of its store that have the
/// lifetime `Ping`, and no others: afterwards the store is read as its
/// records with the lifetimes `Application` and `User`, and every other store
/// is read as before.
pub proof fn law_clear_deletes_ping_records(
    database: DatabaseView,
    store: Seq<char>,
    other: Seq<char>,
)
    requires
        other != store,
    ensures
        after_snapshot(database, store, true).application == database.application,
        after_snapshot(database, store, true).user == database.user,
        after_snapshot(database, store, true).stored(Lifetime::Ping, store).len() == 0,
        after_snapshot(database, store, true).stored(Lifetime::Ping, other) == database.stored(
            Lifetime::Ping,
            other,
        ),
        visited(after_snapshot(database, store, true), store) == visits_of(
            database.stored(Lifetime::Application, store) + database.stored(Lifetime::User, store),
        ),
        visited(after_snapshot(database, store, true), other) == visited(database, other),
{
    lemma_stored_after_discard(database.ping, store, store);
    lemma_stored_after_discard(database.ping, store, other);
    let after = after_snapshot(database, store, true);
    assert(records_read(after, store) =~= database.stored(Lifetime::Application, store)
        + database.stored(Lifetime::User, store));
}

/// A lookup agrees with the snapshot: a name that the snapshot lists is
/// found, and the snapshot lists the value of the metric found, in that
/// metric's category under the name.
pub proof fn law_lookup_agrees_with_snapshot(
    database: DatabaseView,
    store: Seq<char>,
    category: Seq<char>,
    name: Seq<char>,
)
    requires
        lists(database, store, category, name),
    ensures
        looked_up(database, store, name) matches Some(metric) && lists(
            database,
            store,
            metric.category,
            name,
        ) && structured(database, store)[metric.category][name] == metric.value,
{
    let visits = visited(database, store);
    lemma_last_where(visits, listed_as(category, name));
    lemma_last_where(visits, named(name));
    let k = last_where(visits, listed_as(category, name)).unwrap();
    assert(named(name)(visits[k]));
    let m = last_where(visits, named(name)).unwrap();
    let metric = visits[m].metric;
    assert forall|j: int| m < j < visits.len() implies !listed_as(metric.category, name)(
        #[trigger] visits[j],
    ) by {
        assert(!named(name)(visits[j]));
    }
    lemma_last_where_is(visits, listed_as(metric.category, name), m);
    assert(has_category(visits, metric.category));
}

} // verus!
