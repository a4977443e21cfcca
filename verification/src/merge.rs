//! What a snapshot holds, stated over the sequence of visits.
//!
//! Reading a store visits its records one by one: first those with the
//! lifetime `Ping`, then `Application`, then `User`. A visit carries the
//! record's name, decoded from its key, and its metric. A snapshot lists a
//! name once in a category, with the value of the last visit that had that
//! category and name. A lookup gives the metric of the last visit that had
//! the name, whatever its category.

use vstd::prelude::*;
use crate::database::{DatabaseView, RecordView};
use crate::last::{last_where, lemma_last_where, lemma_last_where_push};
use crate::lifetime::Lifetime;
use crate::metric::MetricView;
use crate::names::lossy_text;

verus! {

/// One visit of a record: the name it is shown under, and its metric.
pub struct Visit {
    pub name: Seq<char>,
    pub metric: MetricView,
}

/// A snapshot as a mathematical value: for each category the values of its
/// metrics, each under its name.
pub type Structured = Map<Seq<char>, Map<Seq<char>, serde_json::Value>>;

/// The visit that a record gives rise to.
pub open spec fn visit_of(record: RecordView) -> Visit {
    Visit { name: lossy_text(record.key), metric: record.metric }
}

/// The visits that a sequence of records gives rise to, in its order.
pub open spec fn visits_of(records: Seq<RecordView>) -> Seq<Visit> {
    records.map_values(|record: RecordView| visit_of(record))
}

/// The records of `store` in the order in which they are read: by lifetime,
/// and within a lifetime as the database keeps them.
pub open spec fn records_read(database: DatabaseView, store: Seq<char>) -> Seq<RecordView> {
    database.stored(Lifetime::Ping, store) + database.stored(Lifetime::Application, store)
        + database.stored(Lifetime::User, store)
}

/// The visits that reading `store` makes.
pub open spec fn visited(database: DatabaseView, store: Seq<char>) -> Seq<Visit> {
    visits_of(records_read(database, store))
}

/// Whether a visit has the category `category` and the name `name`.
pub open spec fn listed_as(category: Seq<char>, name: Seq<char>) -> spec_fn(Visit) -> bool {
    |visit: Visit| visit.metric.category == category && visit.name == name
}

/// Whether a visit has the name `name`.
pub open spec fn named(name: Seq<char>) -> spec_fn(Visit) -> bool {
    |visit: Visit| visit.name == name
}

/// Whether some visit has the category `category`.
pub open spec fn has_category(visits: Seq<Visit>, category: Seq<char>) -> bool {
    exists|i: int| 0 <= i < visits.len() && (#[trigger] visits[i]).metric.category == category
}

/// The metrics that a snapshot lists in `category`: every name that a visit
/// with that category had, with the value of the last such visit.
pub open spec fn entries_of(visits: Seq<Visit>, category: Seq<char>) -> Map<
    Seq<char>,
    serde_json::Value,
> {
    Map::new(
        |name: Seq<char>| last_where(visits, listed_as(category, name)) is Some,
        |name: Seq<char>| visits[last_where(visits, listed_as(category, name)).unwrap()].metric.value,
    )
}

/// The snapshot that a sequence of visits amounts to: the categories that
/// were visited, each with its metrics.
pub open spec fn merged(visits: Seq<Visit>) -> Structured {
    Map::new(
        |category: Seq<char>| has_category(visits, category),
        |category: Seq<char>| entries_of(visits, category),
    )
}

/// The metric that a lookup of `name` gives: that of the last visit with
/// the name.
pub open spec fn latest(visits: Seq<Visit>, name: Seq<char>) -> Option<MetricView> {
    match last_where(visits, named(name)) {
        Some(i) => Some(visits[i].metric),
        None => None,
    }
}

/// `snapshot` with `value` listed in `category` under `name`, in place of
/// what was listed there.
pub open spec fn with_entry(
    snapshot: Structured,
    category: Seq<char>,
    name: Seq<char>,
    value: serde_json::Value,
) -> Structured {
    let entries = if snapshot.contains_key(category) {
        snapshot[category]
    } else {
        Map::empty()
    };
    snapshot.insert(category, entries.insert(name, value))
}

/// One more visit lists its value in its category under its name and
/// leaves the rest of the snapshot as it was.
pub proof fn lemma_merged_push(visits: Seq<Visit>, visit: Visit)
    ensures
        merged(visits.push(visit)) == with_entry(
            merged(visits),
            visit.metric.category,
            visit.name,
            visit.metric.value,
        ),
{
    let longer = visits.push(visit);
    let category = visit.metric.category;
    let expected = with_entry(merged(visits), category, visit.name, visit.metric.value);
    assert(longer.drop_last() =~= visits);
    assert(longer[visits.len() as int] == visit);
    assert forall|c: Seq<char>| has_category(longer, c) <==> (has_category(visits, c) || c
        == category) by {
        if has_category(longer, c) {
            let i = choose|i: int| 0 <= i < longer.len() && (#[trigger] longer[i]).metric.category == c;
            if i < visits.len() {
                assert(visits[i].metric.category == c);
            }
        }
        if has_category(visits, c) {
            let i = choose|i: int| 0 <= i < visits.len() && (#[trigger] visits[i]).metric.category == c;
            assert(longer[i].metric.category == c);
        }
    }
    assert forall|c: Seq<char>| has_category(longer, c) implies #[trigger] entries_of(longer, c)
        == expected[c] by {
        let before = if c == category && !has_category(visits, c) {
            Map::empty()
        } else {
            entries_of(visits, c)
        };
        let after = if c == category {
            before.insert(visit.name, visit.metric.value)
        } else {
            before
        };
        assert(expected[c] == after);
        let listed = entries_of(longer, c);
        assert forall|n: Seq<char>|
            #![trigger listed.dom().contains(n)]
            #![trigger after.dom().contains(n)]
            listed.dom().contains(n) == after.dom().contains(n) && (after.dom().contains(n)
                ==> listed[n] == after[n]) by {
            lemma_last_where_push(visits, visit, listed_as(c, n));
            lemma_last_where(visits, listed_as(c, n));
            if let Some(k) = last_where(visits, listed_as(c, n)) {
                assert(longer[k] == visits[k]);
                assert(has_category(visits, c));
            }
        }
        assert(listed =~= after);
    }
    assert(merged(longer) =~= expected);
}

/// One more visit is what a lookup of its name gives, and changes no other
/// lookup.
pub proof fn lemma_latest_push(visits: Seq<Visit>, visit: Visit, name: Seq<char>)
    ensures
        latest(visits.push(visit), name) == (if visit.name == name {
            Some(visit.metric)
        } else {
            latest(visits, name)
        }),
{
    lemma_last_where_push(visits, visit, named(name));
    lemma_last_where(visits, named(name));
}

/// Without visits the snapshot lists nothing, and with a visit it lists
/// that visit's category.
pub proof fn lemma_merged_empty(visits: Seq<Visit>)
    ensures
        visits.len() == 0 <==> merged(visits) == (Map::<
            Seq<char>,
            Map<Seq<char>, serde_json::Value>,
        >::empty()),
{
    if visits.len() == 0 {
        assert(merged(visits) =~= Map::empty());
    } else {
        assert(has_category(visits, visits[0].metric.category));
        assert(merged(visits).contains_key(visits[0].metric.category));
    }
}

} // verus!
