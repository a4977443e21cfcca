//! The mapping that a snapshot is collected in.
//!
//! A [`Snapshot`] lists values by category and name. It is filled one value
//! at a time, and a value that comes later takes the place of the one listed
//! under the same category and name. No category and no name is held twice.

use vstd::prelude::*;
use crate::json::{clone_value, into_value, new_object, object_insert, object_members, object_value};
use crate::merge::{with_entry, Structured};

verus! {

/// The mapping that a list of keyed items stands for, where a later item
/// takes the place of an earlier one with its key.
spec fn keyed<V>(items: Seq<(Seq<char>, V)>) -> Map<Seq<char>, V>
    decreases items.len(),
{
    if items.len() == 0 {
        Map::empty()
    } else {
        keyed(items.drop_last()).insert(items.last().0, items.last().1)
    }
}

/// Whether no two items have the same key.
spec fn keys_differ<V>(items: Seq<(Seq<char>, V)>) -> bool {
    forall|i: int, j: int| 0 <= i < j < items.len() ==> items[i].0 != items[j].0
}

/// A key that no item has is not in the mapping.
proof fn lemma_keyed_without<V>(items: Seq<(Seq<char>, V)>, key: Seq<char>)
    requires
        forall|i: int| 0 <= i < items.len() ==> items[i].0 != key,
    ensures
        !keyed(items).contains_key(key),
    decreases items.len(),
{
    if items.len() > 0 {
        lemma_keyed_without(items.drop_last(), key);
    }
}

/// Where keys differ, the mapping leads from an item's key to the item.
proof fn lemma_keyed_at<V>(items: Seq<(Seq<char>, V)>, i: int)
    requires
        keys_differ(items),
        0 <= i < items.len(),
    ensures
        keyed(items).contains_key(items[i].0),
        keyed(items)[items[i].0] == items[i].1,
    decreases items.len(),
{
    if i < items.len() - 1 {
        lemma_keyed_at(items.drop_last(), i);
    }
}

/// Where keys differ, a new value for an item is a new value for its key.
proof fn lemma_keyed_update<V>(items: Seq<(Seq<char>, V)>, i: int, value: V)
    requires
        keys_differ(items),
        0 <= i < items.len(),
    ensures
        keyed(items.update(i, (items[i].0, value))) == keyed(items).insert(items[i].0, value),
    decreases items.len(),
{
    let changed = items.update(i, (items[i].0, value));
    if i == items.len() - 1 {
        assert(changed.drop_last() =~= items.drop_last());
        assert(keyed(changed) =~= keyed(items).insert(items[i].0, value));
    } else {
        assert(changed.drop_last() =~= items.drop_last().update(i, (items[i].0, value)));
        lemma_keyed_update(items.drop_last(), i, value);
        assert(keyed(changed) =~= keyed(items).insert(items[i].0, value));
    }
}

/// A value under its name.
struct Entry {
    name: String,
    value: serde_json::Value,
}

/// The values of one category.
struct Group {
    category: String,
    entries: Vec<Entry>,
}

/// The entries as items, each keyed by its name.
spec fn entry_items(entries: Seq<Entry>) -> Seq<(Seq<char>, serde_json::Value)> {
    entries.map_values(|entry: Entry| (entry.name@, entry.value))
}

/// The groups as items, each keyed by its category.
spec fn group_items(groups: Seq<Group>) -> Seq<(Seq<char>, Map<Seq<char>, serde_json::Value>)> {
    groups.map_values(|group: Group| (group.category@, group.listing()))
}

/// The JSON objects of the categories, each under its category.
pub open spec fn category_objects(snapshot: Structured) -> Map<Seq<char>, serde_json::Value> {
    snapshot.map_values(|entries: Map<Seq<char>, serde_json::Value>| object_value(entries))
}

/// A snapshot as JSON: an object that has a member for each category, which
/// is an object that has a member for each name, which is the value.
pub open spec fn snapshot_json(snapshot: Structured) -> serde_json::Value {
    object_value(category_objects(snapshot))
}

impl Group {
    /// The values of the group, each under its name.
    spec fn listing(self) -> Map<Seq<char>, serde_json::Value> {
        keyed(entry_items(self.entries@))
    }

    /// Whether the group holds no name twice.
    spec fn distinct(self) -> bool {
        keys_differ(entry_items(self.entries@))
    }

    /// The place of the entry with the name `name`.
    fn position(&self, name: &String) -> (found: Option<usize>)
        ensures
            match found {
                Some(i) => i < self.entries.len() && self.entries[i as int].name@ == name@,
                None => forall|j: int| 0 <= j < self.entries.len() ==> self.entries[j].name@ != name@,
            },
    {
        let mut i: usize = 0;
        while i < self.entries.len()
            invariant
                0 <= i <= self.entries.len(),
                forall|j: int| 0 <= j < i ==> self.entries[j].name@ != name@,
            decreases self.entries.len() - i,
        {
            if self.entries[i].name == *name {
                return Some(i);
            }
            i += 1;
        }
        None
    }

    /// Lists `value` under `name`, in place of what was listed there.
    fn put(&mut self, name: String, value: serde_json::Value)
        requires
            old(self).distinct(),
        ensures
            final(self).distinct(),
            final(self).category == old(self).category,
            final(self).listing() == old(self).listing().insert(name@, value),
    {
        let ghost before = entry_items(self.entries@);
        match self.position(&name) {
            Some(i) => {
                proof {
                    lemma_keyed_update(before, i as int, value);
                }
                self.entries.set(i, Entry { name, value });
                assert(entry_items(self.entries@) =~= before.update(i as int, (name@, value)));
            },
            None => {
                self.entries.push(Entry { name, value });
                assert(entry_items(self.entries@) =~= before.push((name@, value)));
                assert(entry_items(self.entries@).drop_last() =~= before);
            },
        }
    }

    /// The group as a JSON object.
    fn to_json(&self) -> (value: serde_json::Value)
        ensures
            value == object_value(self.listing()),
    {
        let ghost items = entry_items(self.entries@);
        let mut object = new_object();
        let mut i: usize = 0;
        assert(items.take(0) =~= Seq::empty());
        while i < self.entries.len()
            invariant
                0 <= i <= self.entries.len(),
                items == entry_items(self.entries@),
                object_members(object) == keyed(items.take(i as int)),
            decreases self.entries.len() - i,
        {
            let entry = &self.entries[i];
            proof {
                assert(items.take(i + 1).drop_last() =~= items.take(i as int));
            }
            object_insert(&mut object, entry.name.clone(), clone_value(&entry.value));
            i += 1;
        }
        assert(items.take(i as int) =~= items);
        into_value(object)
    }
}

/// Whether no category is held twice, and no category holds a name twice.
spec fn groups_distinct(groups: Seq<Group>) -> bool {
    &&& keys_differ(group_items(groups))
    &&& forall|i: int| 0 <= i < groups.len() ==> (#[trigger] groups[i]).distinct()
}

/// The place of the group with the category `category`.
fn group_position(groups: &Vec<Group>, category: &String) -> (found: Option<usize>)
    ensures
        match found {
            Some(i) => i < groups.len() && groups[i as int].category@ == category@,
            None => forall|j: int| 0 <= j < groups.len() ==> groups[j].category@ != category@,
        },
{
    let mut i: usize = 0;
    while i < groups.len()
        invariant
            0 <= i <= groups.len(),
            forall|j: int| 0 <= j < i ==> groups[j].category@ != category@,
        decreases groups.len() - i,
    {
        if groups[i].category == *category {
            return Some(i);
        }
        i += 1;
    }
    None
}

/// Lists `value` in the group of `category`, which is made where there is
/// none, under `name`.
fn list(groups: &mut Vec<Group>, category: String, name: String, value: serde_json::Value)
    requires
        groups_distinct(old(groups)@),
    ensures
        groups_distinct(final(groups)@),
        keyed(group_items(final(groups)@)) == with_entry(
            keyed(group_items(old(groups)@)),
            category@,
            name@,
            value,
        ),
{
    let ghost before = group_items(groups@);
    match group_position(groups, &category) {
        Some(i) => {
            proof {
                lemma_keyed_at(before, i as int);
                lemma_keyed_update(before, i as int, before[i as int].1.insert(name@, value));
            }
            groups[i].put(name, value);
            assert(group_items(groups@) =~= before.update(
                i as int,
                (category@, before[i as int].1.insert(name@, value)),
            ));
        },
        None => {
            proof {
                lemma_keyed_without(before, category@);
            }
            let mut group = Group { category, entries: Vec::new() };
            group.put(name, value);
            groups.push(group);
            assert(group_items(groups@) =~= before.push(
                (category@, Map::empty().insert(name@, value)),
            ));
            assert(group_items(groups@).drop_last() =~= before);
        },
    }
}

/// Values listed by category and name.
pub struct Snapshot {
    groups: Vec<Group>,
}

impl View for Snapshot {
    type V = Structured;

    closed spec fn view(&self) -> Structured {
        keyed(group_items(self.groups@))
    }
}

impl Snapshot {
    /// No category is held twice, and no category holds a name twice.
    #[verifier::type_invariant]
    spec fn distinct(self) -> bool {
        groups_distinct(self.groups@)
    }

    /// A snapshot that lists nothing.
    pub fn new() -> (snapshot: Snapshot)
        ensures
            snapshot@ == (Map::<Seq<char>, Map<Seq<char>, serde_json::Value>>::empty()),
    {
        Snapshot { groups: Vec::new() }
    }

    /// Lists `value` in `category` under `name`. A value that was listed
    /// there is replaced; every other value stays.
    pub fn insert(&mut self, category: &str, name: String, value: serde_json::Value)
        ensures
            final(self)@ == with_entry(old(self)@, category@, name@, value),
    {
        proof {
            use_type_invariant(&*self);
        }
        let mut groups: Vec<Group> = Vec::new();
        core::mem::swap(&mut self.groups, &mut groups);
        list(&mut groups, category.to_owned(), name, value);
        self.groups = groups;
    }

    /// Whether the snapshot lists nothing.
    pub fn is_empty(&self) -> (empty: bool)
        ensures
            empty == (self@ == (Map::<Seq<char>, Map<Seq<char>, serde_json::Value>>::empty())),
    {
        proof {
            use_type_invariant(self);
            if self.groups.len() > 0 {
                lemma_keyed_at(group_items(self.groups@), 0);
            }
        }
        self.groups.len() == 0
    }

    /// The snapshot as a JSON object of categories.
    pub fn to_json(&self) -> (value: serde_json::Value)
        ensures
            value == snapshot_json(self@),
    {
        let ghost items = group_items(self.groups@);
        let mut object = new_object();
        let mut i: usize = 0;
        assert(items.take(0) =~= Seq::empty());
        assert(category_objects(keyed(items.take(0))) =~= Map::empty());
        while i < self.groups.len()
            invariant
                0 <= i <= self.groups.len(),
                items == group_items(self.groups@),
                object_members(object) == category_objects(keyed(items.take(i as int))),
            decreases self.groups.len() - i,
        {
            let group = &self.groups[i];
            proof {
                let earlier = keyed(items.take(i as int));
                assert(items.take(i + 1).drop_last() =~= items.take(i as int));
                assert(category_objects(earlier.insert(group.category@, group.listing()))
                    =~= category_objects(earlier).insert(
                    group.category@,
                    object_value(group.listing()),
                ));
            }
            object_insert(&mut object, group.category.clone(), group.to_json());
            i += 1;
        }
        assert(items.take(i as int) =~= items);
        into_value(object)
    }
}

} // verus!
