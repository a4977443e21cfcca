//! The last item of a sequence that meets a condition.
//!
//! Both a snapshot and a lookup go by the visit that came last. This module
//! says what "last" means and how it carries over where sequences are joined,
//! filtered or mapped.

use vstd::prelude::*;

verus! {

/// The place of the last item that is wanted, if there is one.
pub open spec fn last_where<T>(items: Seq<T>, wanted: spec_fn(T) -> bool) -> Option<int>
    decreases items.len(),
{
    if items.len() == 0 {
        None
    } else if wanted(items.last()) {
        Some(items.len() - 1)
    } else {
        last_where(items.drop_last(), wanted)
    }
}

/// Whether `i` is the greatest place of `items` that holds a wanted item.
pub open spec fn is_last_where<T>(items: Seq<T>, wanted: spec_fn(T) -> bool, i: int) -> bool {
    &&& 0 <= i < items.len()
    &&& wanted(items[i])
    &&& forall|j: int| i < j < items.len() ==> !wanted(#[trigger] items[j])
}

/// Whether no item is wanted.
pub open spec fn none_where<T>(items: Seq<T>, wanted: spec_fn(T) -> bool) -> bool {
    forall|j: int| 0 <= j < items.len() ==> !wanted(#[trigger] items[j])
}

/// `last_where` gives the greatest place that holds a wanted item, and
/// `None` only where no item is wanted.
pub proof fn lemma_last_where<T>(items: Seq<T>, wanted: spec_fn(T) -> bool)
    ensures
        match last_where(items, wanted) {
            Some(i) => is_last_where(items, wanted, i),
            None => none_where(items, wanted),
        },
    decreases items.len(),
{
    if items.len() > 0 && !wanted(items.last()) {
        let front = items.drop_last();
        lemma_last_where(front, wanted);
        match last_where(front, wanted) {
            Some(i) => {
                assert forall|j: int| i < j < items.len() implies !wanted(#[trigger] items[j]) by {
                    if j < front.len() {
                        assert(items[j] == front[j]);
                    }
                }
            },
            None => {
                assert forall|j: int| 0 <= j < items.len() implies !wanted(
                    #[trigger] items[j],
                ) by {
                    if j < front.len() {
                        assert(items[j] == front[j]);
                    }
                }
            },
        }
    }
}

/// The greatest place that holds a wanted item is what `last_where` gives.
pub proof fn lemma_last_where_is<T>(items: Seq<T>, wanted: spec_fn(T) -> bool, i: int)
    requires
        is_last_where(items, wanted, i),
    ensures
        last_where(items, wanted) == Some(i),
{
    lemma_last_where(items, wanted);
}

/// Where no item is wanted, `last_where` gives `None`.
pub proof fn lemma_last_where_none<T>(items: Seq<T>, wanted: spec_fn(T) -> bool)
    requires
        none_where(items, wanted),
    ensures
        last_where(items, wanted) is None,
{
    lemma_last_where(items, wanted);
}

/// With one more item, the last wanted item is the new one where it is
/// wanted, and the one before where it is not.
pub proof fn lemma_last_where_push<T>(items: Seq<T>, item: T, wanted: spec_fn(T) -> bool)
    ensures
        last_where(items.push(item), wanted) == (if wanted(item) {
            Some(items.len() as int)
        } else {
            last_where(items, wanted)
        }),
{
    assert(items.push(item).drop_last() =~= items);
}

/// In two sequences joined, the last wanted item is that of the second
/// where it has one, and that of the first where it has none.
pub proof fn lemma_last_where_joined<T>(first: Seq<T>, second: Seq<T>, wanted: spec_fn(T) -> bool)
    ensures
        last_where(first + second, wanted) == (match last_where(second, wanted) {
            Some(i) => Some(first.len() + i),
            None => last_where(first, wanted),
        }),
{
    let joined = first + second;
    lemma_last_where(first, wanted);
    lemma_last_where(second, wanted);
    match last_where(second, wanted) {
        Some(i) => {
            assert(joined[first.len() + i] == second[i]);
            assert forall|j: int| first.len() + i < j < joined.len() implies !wanted(
                #[trigger] joined[j],
            ) by {
                assert(joined[j] == second[j - first.len()]);
            }
            lemma_last_where_is(joined, wanted, first.len() + i);
        },
        None => {
            match last_where(first, wanted) {
                Some(i) => {
                    assert(joined[i] == first[i]);
                    assert forall|j: int| i < j < joined.len() implies !wanted(
                        #[trigger] joined[j],
                    ) by {
                        if j < first.len() {
                            assert(joined[j] == first[j]);
                        } else {
                            assert(joined[j] == second[j - first.len()]);
                        }
                    }
                    lemma_last_where_is(joined, wanted, i);
                },
                None => {
                    assert forall|j: int| 0 <= j < joined.len() implies !wanted(
                        #[trigger] joined[j],
                    ) by {
                        if j < first.len() {
                            assert(joined[j] == first[j]);
                        } else {
                            assert(joined[j] == second[j - first.len()]);
                        }
                    }
                    lemma_last_where_none(joined, wanted);
                },
            }
        },
    }
}

/// Mapping the items carries the last wanted item along, where the
/// condition on the images says of an image what the condition on the items
/// says of the item.
pub proof fn lemma_last_where_mapped<T, U>(
    items: Seq<T>,
    image: spec_fn(T) -> U,
    wanted: spec_fn(U) -> bool,
    wanted_before: spec_fn(T) -> bool,
)
    requires
        forall|item: T| #[trigger] wanted_before(item) == wanted(image(item)),
    ensures
        last_where(items.map_values(image), wanted) == last_where(items, wanted_before),
{
    let images = items.map_values(image);
    lemma_last_where(items, wanted_before);
    match last_where(items, wanted_before) {
        Some(i) => {
            assert(images[i] == image(items[i]));
            assert forall|j: int| i < j < images.len() implies !wanted(#[trigger] images[j]) by {
                assert(images[j] == image(items[j]));
            }
            lemma_last_where_is(images, wanted, i);
        },
        None => {
            assert forall|j: int| 0 <= j < images.len() implies !wanted(#[trigger] images[j]) by {
                assert(images[j] == image(items[j]));
            }
            lemma_last_where_none(images, wanted);
        },
    }
}

/// Among the items that are kept, the last wanted one is the last item
/// that is both kept and wanted.
pub proof fn lemma_last_where_kept<T>(
    items: Seq<T>,
    kept: spec_fn(T) -> bool,
    wanted: spec_fn(T) -> bool,
    both: spec_fn(T) -> bool,
)
    requires
        forall|item: T| #[trigger] both(item) == (kept(item) && wanted(item)),
    ensures
        match last_where(items.filter(kept), wanted) {
            Some(k) => last_where(items, both) matches Some(i) && 0 <= i < items.len() && 0 <= k
                < items.filter(kept).len() && items[i] == items.filter(kept)[k],
            None => last_where(items, both) is None,
        },
    decreases items.len(),
{
    reveal(Seq::filter);
    if items.len() > 0 {
        let front = items.drop_last();
        lemma_last_where_kept(front, kept, wanted, both);
        lemma_last_where(front.filter(kept), wanted);
        lemma_last_where(front, both);
        if kept(items.last()) {
            lemma_last_where_push(front.filter(kept), items.last(), wanted);
        }
    }
}

} // verus!
