//! Lists of named values, and the mapping from names to values that such a
//! list stands for.

use vstd::prelude::*;

verus! {

/// A name together with what is kept under it.
pub struct Keyed<V> {
    pub name: Seq<char>,
    pub value: V,
}

/// Whether no name occurs twice in the list.
pub open spec fn distinct_names<V>(listing: Seq<Keyed<V>>) -> bool {
    forall|i: int, j: int|
        0 <= i < j < listing.len() ==> (#[trigger] listing[i]).name != (#[trigger] listing[j]).name
}

/// Whether some item of the list has the name.
pub open spec fn has_name<V>(listing: Seq<Keyed<V>>, name: Seq<char>) -> bool {
    exists|i: int| 0 <= i < listing.len() && (#[trigger] listing[i]).name == name
}

/// The place of the name in the list, where it has one.
pub open spec fn position<V>(listing: Seq<Keyed<V>>, name: Seq<char>) -> int {
    choose|i: int| 0 <= i < listing.len() && (#[trigger] listing[i]).name == name
}

/// The list with the item put under its name: in the place of the item that
/// had the name, or at the end where none had it.
pub open spec fn with_item<V>(listing: Seq<Keyed<V>>, item: Keyed<V>) -> Seq<Keyed<V>> {
    if has_name(listing, item.name) {
        listing.update(position(listing, item.name), item)
    } else {
        listing.push(item)
    }
}

/// The list with each of the items put under its name, one after the other.
pub open spec fn with_items<V>(listing: Seq<Keyed<V>>, items: Seq<Keyed<V>>) -> Seq<Keyed<V>>
    decreases items.len(),
{
    if items.len() == 0 {
        listing
    } else {
        with_item(with_items(listing, items.drop_last()), items.last())
    }
}

/// The list without the item of the name, the others in their order.
pub open spec fn without_name<V>(listing: Seq<Keyed<V>>, name: Seq<char>) -> Seq<Keyed<V>> {
    if has_name(listing, name) {
        listing.remove(position(listing, name))
    } else {
        listing
    }
}

/// The mapping from names to values that a list stands for. Where a name
/// occurs more than once, its last place counts.
pub open spec fn mapping_of<V>(listing: Seq<Keyed<V>>) -> Map<Seq<char>, V>
    decreases listing.len(),
{
    if listing.len() == 0 {
        Map::empty()
    } else {
        mapping_of(listing.drop_last()).insert(listing.last().name, listing.last().value)
    }
}

/// The names of a mapping are the names of the list.
pub proof fn lemma_mapping_names<V>(listing: Seq<Keyed<V>>, name: Seq<char>)
    ensures
        mapping_of(listing).dom().contains(name) <==> has_name(listing, name),
    decreases listing.len(),
{
    if listing.len() > 0 {
        let front = listing.drop_last();
        lemma_mapping_names(front, name);
        if has_name(listing, name) {
            let i = position(listing, name);
            if i < listing.len() - 1 {
                assert(front[i].name == name);
            }
        }
    }
}

/// In a list without repeated names, the name of each item maps to its
/// value, and the place of the name is the place of the item.
pub proof fn lemma_mapping_lookup<V>(listing: Seq<Keyed<V>>, i: int)
    requires
        distinct_names(listing),
        0 <= i < listing.len(),
    ensures
        mapping_of(listing).dom().contains(listing[i].name),
        mapping_of(listing)[listing[i].name] == listing[i].value,
        position(listing, listing[i].name) == i,
    decreases listing.len(),
{
    if i < listing.len() - 1 {
        lemma_mapping_lookup(listing.drop_last(), i);
    }
}

/// Appending an item inserts it into the mapping.
pub proof fn lemma_mapping_push<V>(listing: Seq<Keyed<V>>, entry: Keyed<V>)
    ensures
        mapping_of(listing.push(entry)) == mapping_of(listing).insert(entry.name, entry.value),
{
    assert(listing.push(entry).drop_last() =~= listing);
}

/// Taking an item out of a list without repeated names removes its name
/// from the mapping.
pub proof fn lemma_mapping_remove<V>(listing: Seq<Keyed<V>>, i: int)
    requires
        distinct_names(listing),
        0 <= i < listing.len(),
    ensures
        distinct_names(listing.remove(i)),
        mapping_of(listing.remove(i)) == mapping_of(listing).remove(listing[i].name),
{
    let rest = listing.remove(i);
    let name = listing[i].name;
    assert forall|a: int| 0 <= a < rest.len() implies #[trigger] rest[a] == listing[if a < i {
        a
    } else {
        a + 1
    }] by {}
    let left = mapping_of(rest);
    let right = mapping_of(listing).remove(name);
    assert forall|n: Seq<char>| left.dom().contains(n) <==> right.dom().contains(n) by {
        lemma_mapping_names(rest, n);
        lemma_mapping_names(listing, n);
        if has_name(listing, n) && n != name {
            let b = position(listing, n);
            assert(rest[if b < i { b } else { b - 1 }].name == n);
        }
    }
    assert forall|n: Seq<char>| left.dom().contains(n) implies left[n] == right[n] by {
        lemma_mapping_names(rest, n);
        let a = position(rest, n);
        lemma_mapping_lookup(rest, a);
        lemma_mapping_lookup(listing, if a < i { a } else { a + 1 });
    }
}

/// Replacing an item of a list without repeated names, by one whose name is
/// the same or not in the list, replaces it in the mapping.
pub proof fn lemma_mapping_update<V>(listing: Seq<Keyed<V>>, i: int, entry: Keyed<V>)
    requires
        distinct_names(listing),
        0 <= i < listing.len(),
        entry.name == listing[i].name || !has_name(listing, entry.name),
    ensures
        distinct_names(listing.update(i, entry)),
        mapping_of(listing.update(i, entry)) == mapping_of(listing).remove(listing[i].name).insert(
            entry.name,
            entry.value,
        ),
{
    let changed = listing.update(i, entry);
    let name = listing[i].name;
    let left = mapping_of(changed);
    let right = mapping_of(listing).remove(name).insert(entry.name, entry.value);
    assert forall|n: Seq<char>| left.dom().contains(n) <==> right.dom().contains(n) by {
        lemma_mapping_names(changed, n);
        lemma_mapping_names(listing, n);
        if has_name(listing, n) && n != name {
            assert(changed[position(listing, n)].name == n);
        }
        if n == entry.name {
            assert(changed[i].name == n);
        }
    }
    assert forall|n: Seq<char>| left.dom().contains(n) implies left[n] == right[n] by {
        lemma_mapping_names(changed, n);
        let a = position(changed, n);
        lemma_mapping_lookup(changed, a);
        if a != i {
            lemma_mapping_lookup(listing, a);
        }
    }
}

/// The last item of a name decides what the name maps to.
pub proof fn lemma_mapping_last_wins<V>(listing: Seq<Keyed<V>>, i: int)
    requires
        0 <= i < listing.len(),
        forall|j: int| i < j < listing.len() ==> (#[trigger] listing[j]).name != listing[i].name,
    ensures
        mapping_of(listing).dom().contains(listing[i].name),
        mapping_of(listing)[listing[i].name] == listing[i].value,
    decreases listing.len(),
{
    if i < listing.len() - 1 {
        lemma_mapping_last_wins(listing.drop_last(), i);
    }
}

/// Putting an item under its name keeps the names distinct and inserts the
/// item into the mapping.
pub proof fn lemma_with_item<V>(listing: Seq<Keyed<V>>, item: Keyed<V>)
    requires
        distinct_names(listing),
    ensures
        distinct_names(with_item(listing, item)),
        mapping_of(with_item(listing, item)) == mapping_of(listing).insert(item.name, item.value),
{
    if has_name(listing, item.name) {
        lemma_mapping_update(listing, position(listing, item.name), item);
    } else {
        lemma_mapping_push(listing, item);
    }
}

/// Taking the item of a name out keeps the names distinct and removes the
/// name from the mapping.
pub proof fn lemma_without_name<V>(listing: Seq<Keyed<V>>, name: Seq<char>)
    requires
        distinct_names(listing),
    ensures
        distinct_names(without_name(listing, name)),
        mapping_of(without_name(listing, name)) == mapping_of(listing).remove(name),
{
    if has_name(listing, name) {
        lemma_mapping_remove(listing, position(listing, name));
    } else {
        lemma_mapping_names(listing, name);
    }
}

} // verus!
